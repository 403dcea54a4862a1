//! What the calls of a resolver and of a coalescer do, told by what is kept and
//! who waits before and after them.
use crate::coalesce;
use crate::coalesce::{Coalescer, Joined};
use crate::dns;
use crate::edge_laws;
use crate::http;
use crate::http_laws;
use crate::resolver;
use crate::resolver::{Fetched, Key, Pending, Resolver, Step};
use crate::wire_laws;
use futures_channel::oneshot;
use vstd::future::FutureAdditionalSpecFns;
use vstd::prelude::*;

verus! {

// ---------------------------------------------------------------------------
// Joining and settling

/// Whether nothing is different for any key but this one.
pub open spec fn others_stay<Q, V>(before: Map<Q, V>, after: Map<Q, V>, key: Q) -> bool {
    forall|k: Q|
        k != key ==> {
            &&& #[trigger] after.contains_key(k) == before.contains_key(k)
            &&& after.contains_key(k) ==> after[k] == before[k]
        }
}

/// Whether one more sender is in a list, behind the others, and is the one that
/// this receiver listens to.
pub open spec fn one_more_waits<V>(
    before: Seq<oneshot::Sender<V>>,
    after: Seq<oneshot::Sender<V>>,
    rx: oneshot::Receiver<V>,
) -> bool {
    &&& after.len() == before.len() + 1
    &&& forall|i: int| 0 <= i < before.len() ==> #[trigger] after[i] == before[i]
    &&& call_ensures(oneshot::channel::<V>, (), (after[before.len() as int], rx))
}

/// A new coalescer has no fetch under way.
pub proof fn law_new_coalescer<K: View + Eq, V: Clone>(c: Coalescer<K, V>)
    requires
        call_ensures(Coalescer::<K, V>::new, (), c),
    ensures
        c.wf(),
        forall|k: K::V| !#[trigger] c@.contains_key(k),
{
}

/// A coalescer has no fetch under way by default.
pub proof fn law_default_coalescer<K: View + Eq, V: Clone>(c: Coalescer<K, V>)
    requires
        call_ensures(<Coalescer<K, V> as Default>::default, (), c),
    ensures
        c.wf(),
        forall|k: K::V| !#[trigger] c@.contains_key(k),
{
}

/// Whoever joins leads where no fetch for the key is under way, and waits with
/// a receiver of their own where one is. Either way one is under way then, and
/// nothing changes for other keys or for those who wait already.
pub proof fn law_join<K: View + Eq, V: Clone>(c: &mut Coalescer<K, V>, key: K, joined: Joined<V>)
    requires
        call_ensures(Coalescer::<K, V>::join, (c, key), joined),
    ensures
        joined is Leader <==> !old(c)@.contains_key(key@),
        final(c)@.contains_key(key@),
        others_stay(old(c)@, final(c)@, key@),
        joined is Leader ==> final(c)@[key@].len() == 0,
        joined matches Joined::Follower(rx) ==> one_more_waits(
            old(c)@[key@],
            final(c)@[key@],
            rx,
        ),
{
    lemma_join(old(c)@, key@, joined, final(c)@);
}

proof fn lemma_join<Q, V>(
    before: coalesce::Waiting<Q, V>,
    key: Q,
    joined: Joined<V>,
    after: coalesce::Waiting<Q, V>,
)
    requires
        coalesce::joins(before, key, joined, after),
    ensures
        joined is Leader <==> !before.contains_key(key),
        after.contains_key(key),
        others_stay(before, after, key),
        joined is Leader ==> after[key].len() == 0,
        joined matches Joined::Follower(rx) ==> one_more_waits(before[key], after[key], rx),
{
    if let Joined::Follower(rx) = joined {
        let tx = choose|tx: oneshot::Sender<V>|
            #![trigger coalesce::paired(tx, rx)]
            coalesce::paired(tx, rx) && after == before.insert(key, before[key].push(tx));
        assert(after[key][before[key].len() as int] == tx);
    }
}

/// Whether a copy of a value was given to a sender, with this outcome.
pub open spec fn given<V: Clone>(tx: oneshot::Sender<V>, value: V, outcome: Result<(), V>) -> bool {
    exists|copy: V|
        #[trigger] cloned(value, copy) && call_ensures(
            oneshot::Sender::<V>::send,
            (tx, copy),
            outcome,
        )
}

/// Settling gives each who waits for the key a copy of the value, all of them
/// and in order; then no fetch for it is under way, and nothing changes for
/// other keys.
pub proof fn law_settle<K: View + Eq, V: Clone>(
    c: &mut Coalescer<K, V>,
    key: &K,
    value: &V,
    outcomes: Vec<Result<(), V>>,
)
    requires
        call_ensures(Coalescer::<K, V>::settle, (c, key, value), outcomes),
    ensures
        !final(c)@.contains_key(key@),
        others_stay(old(c)@, final(c)@, key@),
        !old(c)@.contains_key(key@) ==> outcomes@.len() == 0,
        old(c)@.contains_key(key@) ==> {
            &&& outcomes@.len() == old(c)@[key@].len()
            &&& forall|i: int|
                0 <= i < outcomes@.len() ==> given(
                    old(c)@[key@][i],
                    *value,
                    #[trigger] outcomes@[i],
                )
        },
{
    lemma_settle(old(c)@, key@, *value, outcomes@, final(c)@);
}

proof fn lemma_settle<Q, V: Clone>(
    before: coalesce::Waiting<Q, V>,
    key: Q,
    value: V,
    outcomes: Seq<Result<(), V>>,
    after: coalesce::Waiting<Q, V>,
)
    requires
        coalesce::settles(before, key, value, outcomes, after),
    ensures
        !after.contains_key(key),
        others_stay(before, after, key),
        !before.contains_key(key) ==> outcomes.len() == 0,
        before.contains_key(key) ==> {
            &&& outcomes.len() == before[key].len()
            &&& forall|i: int|
                0 <= i < outcomes.len() ==> given(before[key][i], value, #[trigger] outcomes[i])
        },
{
    if before.contains_key(key) {
        assert forall|i: int| 0 <= i < outcomes.len() implies given(
            before[key][i],
            value,
            #[trigger] outcomes[i],
        ) by {
            let tx = before[key][i];
            assert(coalesce::handed(coalesce::waiters(before, key)[i], value, outcomes[i]));
            let copy = choose|copy: V|
                cloned(value, copy) && #[trigger] call_ensures(
                    oneshot::Sender::<V>::send,
                    (tx, copy),
                    outcomes[i],
                );
            assert(cloned(value, copy));
        }
    }
}

/// Whoever joined to wait hears what the fetch brought, however many joined
/// before and after: the receiver resolves to a copy of the value that the
/// fetch was settled with, unless the waiter had gone away.
pub proof fn law_joined_then_settled<K: View + Eq, V: Clone>(
    c: &mut Coalescer<K, V>,
    key: K,
    rx: oneshot::Receiver<V>,
    d: &mut Coalescer<K, V>,
    same: &K,
    value: &V,
    outcomes: Vec<Result<(), V>>,
)
    requires
        call_ensures(Coalescer::<K, V>::join, (c, key), Joined::Follower(rx)),
        call_ensures(Coalescer::<K, V>::settle, (d, same, value), outcomes),
        same@ == key@,
        old(d)@.contains_key(key@),
        final(c)@[key@].is_prefix_of(old(d)@[key@]),
    ensures
        old(c)@[key@].len() < outcomes@.len(),
        outcomes@[old(c)@[key@].len() as int] is Ok ==> exists|copy: V|
            #[trigger] cloned(*value, copy) && (rx@ == Ok::<V, oneshot::Canceled>(copy)),
{
    let last = old(d)@;
    let joined = final(c)@;
    assert forall|n: int| 0 <= n < joined[key@].len() implies #[trigger] last[key@][n]
        == joined[key@][n] by {}
    coalesce::lemma_waiter_hears(
        old(c)@,
        key@,
        rx,
        joined,
        last,
        *value,
        outcomes@,
        final(d)@,
    );
}

// ---------------------------------------------------------------------------
// The cache of a resolver

/// A new resolver keeps nothing and fetches nothing.
pub proof fn law_new_resolver(r: Resolver)
    requires
        call_ensures(Resolver::new, (), r),
    ensures
        r.wf(),
        forall|q: (Seq<char>, u16)| !#[trigger] r@.kept.contains_key(q),
        forall|q: (Seq<char>, u16)| !#[trigger] r@.under_way.contains_key(q),
{
}

/// Whether a message is kept for a question and has time left.
pub open spec fn has_fresh(kept: resolver::Kept, q: (Seq<char>, u16), now_ms: u64) -> bool {
    kept.contains_key(q) && edge_laws::whole_secs(kept[q].fetched_at_ms, now_ms) < kept[q].ttl_secs
}

proof fn lemma_fresh_answer(
    kept: resolver::Kept,
    q: (Seq<char>, u16),
    client_id: u16,
    now_ms: u64,
)
    ensures
        resolver::fresh_answer(kept, q, client_id, now_ms) is Some <==> has_fresh(kept, q, now_ms),
        resolver::fresh_answer(kept, q, client_id, now_ms) matches Some(out) ==> wire_laws::hands_out(
            kept[q].bytes,
            out,
            client_id,
            edge_laws::whole_secs(kept[q].fetched_at_ms, now_ms),
        ),
{
    if kept.contains_key(q) {
        edge_laws::lemma_hands_out_later(
            kept[q].bytes,
            client_id,
            kept[q].fetched_at_ms,
            now_ms,
        );
    }
}

/// A question is answered out of the cache as long as the message that is kept
/// for that very question has time left, and then with that message: its TTLs
/// taken down by the whole seconds since, and the asker's id in front.
pub proof fn law_served_from_cache(
    r: &Resolver,
    key: &Key,
    client_id: u16,
    now_ms: u64,
    out: Option<Vec<u8>>,
)
    requires
        call_ensures(Resolver::serve_from_cache, (r, key, client_id, now_ms), out),
    ensures
        out is Some <==> has_fresh(r@.kept, (key.qname@, key.qtype), now_ms),
        out matches Some(bytes) ==> wire_laws::hands_out(
            r@.kept[(key.qname@, key.qtype)].bytes,
            bytes@,
            client_id,
            edge_laws::whole_secs(
                r@.kept[(key.qname@, key.qtype)].fetched_at_ms,
                now_ms,
            ),
        ),
{
    lemma_fresh_answer(r@.kept, (key.qname@, key.qtype), client_id, now_ms);
}

/// Whether what waits is this query: its question, its first two bytes as the
/// id, and the time.
pub open spec fn is_pending(
    p: Pending,
    query: Seq<u8>,
    q: (Seq<char>, u16),
    now_ms: u64,
) -> bool {
    &&& p.key.qname@ == q.0
    &&& p.key.qtype == q.1
    &&& p.client_id == wire_laws::num16(query, 0)
    &&& p.asked_ms == now_ms
}

/// A query without a question is refused, and changes nothing.
pub proof fn law_query_without_question(r: &mut Resolver, query: &[u8], now_ms: u64, step: Step)
    requires
        call_ensures(Resolver::begin, (r, query, now_ms), step),
        forall|labels: Seq<Seq<u8>>, qtype: u16|
            !#[trigger] wire_laws::asks(query@, labels, qtype),
    ensures
        step matches Step::Reply(reply) && http_laws::refuses(
            reply,
            "unparseable dns query"@,
            400,
        ),
        final(r)@.kept == old(r)@.kept,
        final(r)@.under_way == old(r)@.under_way,
{
    wire_laws::lemma_question(query@);
    http_laws::lemma_error_reply(step->Reply_0, "unparseable dns query"@, 400);
}

/// A query is answered at once where a message with time left is kept for its
/// question, and then with that message, its TTLs taken down, under the query's
/// own id; nothing changes.
pub proof fn law_query_in_cache(
    r: &mut Resolver,
    query: &[u8],
    now_ms: u64,
    step: Step,
    labels: Seq<Seq<u8>>,
    qtype: u16,
)
    requires
        call_ensures(Resolver::begin, (r, query, now_ms), step),
        wire_laws::asks(query@, labels, qtype),
        has_fresh(old(r)@.kept, (wire_laws::name_text(labels), qtype), now_ms),
    ensures
        step matches Step::Reply(reply) && http_laws::answers_edge(reply, "HIT"@)
            && wire_laws::hands_out(
            old(r)@.kept[(wire_laws::name_text(labels), qtype)].bytes,
            http_laws::bytes_in(reply.body),
            dns::u16_at(query@, 0),
            edge_laws::whole_secs(
                old(r)@.kept[(wire_laws::name_text(labels), qtype)].fetched_at_ms,
                now_ms,
            ),
        ),
        dns::u16_at(query@, 0) == wire_laws::num16(query@, 0),
        final(r)@.kept == old(r)@.kept,
        final(r)@.under_way == old(r)@.under_way,
{
    let q = (wire_laws::name_text(labels), qtype);
    let id = dns::u16_at(query@, 0);
    wire_laws::lemma_asked(query@, labels, qtype);
    lemma_fresh_answer(old(r)@.kept, q, id, now_ms);
    let out = resolver::fresh_answer(old(r)@.kept, q, id, now_ms)->Some_0;
    http_laws::lemma_region_reply(step->Reply_0, out, "HIT"@);
}

/// A query whose question has no message with time left leads a fetch where
/// none for the question is under way, and waits for that fetch where one is.
/// What is remembered of it is its question, its id and the time. Nothing
/// changes in the cache or for other questions.
pub proof fn law_query_not_in_cache(
    r: &mut Resolver,
    query: &[u8],
    now_ms: u64,
    step: Step,
    labels: Seq<Seq<u8>>,
    qtype: u16,
)
    requires
        call_ensures(Resolver::begin, (r, query, now_ms), step),
        wire_laws::asks(query@, labels, qtype),
        !has_fresh(old(r)@.kept, (wire_laws::name_text(labels), qtype), now_ms),
    ensures
        final(r)@.kept == old(r)@.kept,
        final(r)@.under_way.contains_key((wire_laws::name_text(labels), qtype)),
        others_stay(
            old(r)@.under_way,
            final(r)@.under_way,
            (wire_laws::name_text(labels), qtype),
        ),
        step is Lead <==> !old(r)@.under_way.contains_key((wire_laws::name_text(labels), qtype)),
        step is Follow <==> old(r)@.under_way.contains_key((wire_laws::name_text(labels), qtype)),
        step matches Step::Lead(p) ==> {
            &&& is_pending(p, query@, (wire_laws::name_text(labels), qtype), now_ms)
            &&& final(r)@.under_way[(wire_laws::name_text(labels), qtype)].len() == 0
        },
        step matches Step::Follow(p, rx) ==> {
            &&& is_pending(p, query@, (wire_laws::name_text(labels), qtype), now_ms)
            &&& one_more_waits(
                old(r)@.under_way[(wire_laws::name_text(labels), qtype)],
                final(r)@.under_way[(wire_laws::name_text(labels), qtype)],
                rx,
            )
        },
{
    let q = (wire_laws::name_text(labels), qtype);
    wire_laws::lemma_asked(query@, labels, qtype);
    lemma_fresh_answer(old(r)@.kept, q, dns::u16_at(query@, 0), now_ms);
    match step {
        Step::Reply(_) => {},
        Step::Lead(_) => {
            lemma_join(old(r)@.under_way, q, Joined::Leader, final(r)@.under_way);
        },
        Step::Follow(_, rx) => {
            lemma_join(old(r)@.under_way, q, Joined::Follower(rx), final(r)@.under_way);
        },
    }
}

/// Settling gives each who waits for the question a copy of what was fetched;
/// then no fetch for it is under way. Nothing changes in the cache or for other
/// questions.
pub proof fn law_fetch_is_settled(
    r: &mut Resolver,
    pending: &Pending,
    fetched: &Fetched,
    outcomes: Vec<Result<(), Fetched>>,
)
    requires
        call_ensures(Resolver::settle, (r, pending, fetched), outcomes),
    ensures
        final(r)@.kept == old(r)@.kept,
        !final(r)@.under_way.contains_key((pending.key.qname@, pending.key.qtype)),
        others_stay(
            old(r)@.under_way,
            final(r)@.under_way,
            (pending.key.qname@, pending.key.qtype),
        ),
        old(r)@.under_way.contains_key((pending.key.qname@, pending.key.qtype)) ==> {
            &&& outcomes@.len() == old(r)@.under_way[(pending.key.qname@, pending.key.qtype)].len()
            &&& forall|i: int|
                0 <= i < outcomes@.len() ==> given(
                    old(r)@.under_way[(pending.key.qname@, pending.key.qtype)][i],
                    *fetched,
                    #[trigger] outcomes@[i],
                )
        },
{
    lemma_settle(
        old(r)@.under_way,
        (pending.key.qname@, pending.key.qtype),
        *fetched,
        outcomes@,
        final(r)@.under_way,
    );
}

/// A failed fetch is told to whoever asked, and nothing changes.
pub proof fn law_failure_is_told(
    r: &mut Resolver,
    pending: Pending,
    reason: String,
    reply: http::Response,
)
    requires
        call_ensures(Resolver::finish, (r, pending, Fetched::Failed(reason)), reply),
    ensures
        http_laws::refuses(reply, "upstream: "@ + reason@, 502),
        final(r)@.kept == old(r)@.kept,
        final(r)@.under_way == old(r)@.under_way,
{
    http_laws::lemma_error_reply(reply, "upstream: "@ + reason@, 502);
}

/// A message that was fetched goes out as it came but for the id, which is the
/// asker's. It is kept under the very question that it was fetched for, with
/// the time when that was asked and the time for which it may be kept, unless
/// something is kept for that question; that stays then. Whatever is kept for
/// any other question stays too, and nothing else comes in.
pub proof fn law_fetched_is_kept(
    r: &mut Resolver,
    pending: Pending,
    bytes: Vec<u8>,
    reply: http::Response,
)
    requires
        call_ensures(Resolver::finish, (r, pending, Fetched::Message(bytes)), reply),
    ensures
        http_laws::answers_edge(reply, "MISS"@),
        wire_laws::has_id(bytes@, http_laws::bytes_in(reply.body), pending.client_id),
        final(r)@.under_way == old(r)@.under_way,
        final(r)@.kept.contains_key((pending.key.qname@, pending.key.qtype)),
        others_stay(
            old(r)@.kept,
            final(r)@.kept,
            (pending.key.qname@, pending.key.qtype),
        ),
        old(r)@.kept.contains_key((pending.key.qname@, pending.key.qtype))
            ==> final(r)@.kept[(pending.key.qname@, pending.key.qtype)] == old(r)@.kept[(
            pending.key.qname@,
            pending.key.qtype,
        )],
        !old(r)@.kept.contains_key((pending.key.qname@, pending.key.qtype)) ==> {
            let entry = final(r)@.kept[(pending.key.qname@, pending.key.qtype)];
            &&& entry.bytes == bytes@
            &&& entry.fetched_at_ms == pending.asked_ms
            &&& wire_laws::keeps_for(bytes@, entry.ttl_secs as int)
        },
{
    wire_laws::lemma_keeps_for(bytes@);
    wire_laws::lemma_has_id(bytes@, pending.client_id);
    http_laws::lemma_region_reply(reply, dns::with_id(bytes@, pending.client_id), "MISS"@);
}

/// What was fetched for a question answers that question from then on, as long
/// as it may be kept, and no other question: those are answered as before.
pub proof fn law_fetched_then_served(
    r: &mut Resolver,
    pending: Pending,
    bytes: Vec<u8>,
    reply: http::Response,
    later: &Resolver,
    key: &Key,
    client_id: u16,
    now_ms: u64,
    out: Option<Vec<u8>>,
    secs: int,
)
    requires
        call_ensures(Resolver::finish, (r, pending, Fetched::Message(bytes)), reply),
        !old(r)@.kept.contains_key((pending.key.qname@, pending.key.qtype)),
        later@ == final(r)@,
        call_ensures(Resolver::serve_from_cache, (later, key, client_id, now_ms), out),
        wire_laws::keeps_for(bytes@, secs),
    ensures
        key.qname@ == pending.key.qname@ && key.qtype == pending.key.qtype ==> {
            &&& out is Some <==> edge_laws::whole_secs(pending.asked_ms, now_ms) < secs
            &&& out matches Some(o) ==> wire_laws::hands_out(
                bytes@,
                o@,
                client_id,
                edge_laws::whole_secs(pending.asked_ms, now_ms),
            )
        },
        key.qname@ != pending.key.qname@ || key.qtype != pending.key.qtype ==> (out is Some
            <==> has_fresh(old(r)@.kept, (key.qname@, key.qtype), now_ms)),
{
    law_fetched_is_kept(r, pending, bytes, reply);
    law_served_from_cache(later, key, client_id, now_ms, out);
    let q = (pending.key.qname@, pending.key.qtype);
    wire_laws::lemma_keeps_for_one(bytes@, secs, final(r)@.kept[q].ttl_secs as int);
    assert(later@.kept.contains_key(q));
    let asked = (key.qname@, key.qtype);
    if asked != q {
        assert(final(r)@.kept.contains_key(asked) == old(r)@.kept.contains_key(asked));
    }
}

/// Two keys are the same where their names and their types are.
pub proof fn law_keys_compare(a: &Key, b: &Key, same: bool)
    requires
        call_ensures(<Key as PartialEq>::eq, (a, b), same),
    ensures
        same <==> (a.qname@ == b.qname@ && a.qtype == b.qtype),
{
}

/// A copy of a key is for the same question.
pub proof fn law_key_copies(a: &Key, b: Key)
    requires
        call_ensures(<Key as Clone>::clone, (a,), b),
    ensures
        b.qname@ == a.qname@,
        b.qtype == a.qtype,
{
}

/// A copy of what was fetched is the same.
pub proof fn law_fetched_copies(a: &Fetched, b: Fetched)
    requires
        call_ensures(<Fetched as Clone>::clone, (a,), b),
    ensures
        *a matches Fetched::Message(m) ==> (b matches Fetched::Message(n) && n@ == m@),
        *a matches Fetched::Failed(s) ==> (b matches Fetched::Failed(t) && t@ == s@),
{
}

} // verus!
