//! The second tier: one object for a region, with a cache of its own and one
//! fetch at a time for each question.
use crate::coalesce;
use crate::coalesce::{Coalescer, Joined};
use crate::dns;
use crate::edge;
use crate::http;
use crate::http::Response;
use futures_channel::oneshot;
use vstd::future::FutureAdditionalSpecFns;
use vstd::hash_map::StringHashMap;
use vstd::prelude::*;

verus! {

// ---------------------------------------------------------------------------
// Values

/// A question: a name, letters small, and a type.
#[derive(Debug)]
pub struct Key {
    pub qname: String,
    pub qtype: u16,
}

impl View for Key {
    type V = (Seq<char>, u16);

    open spec fn view(&self) -> (Seq<char>, u16) {
        (self.qname@, self.qtype)
    }
}

impl PartialEq for Key {
    fn eq(&self, other: &Key) -> (same: bool) {
        self.qtype == other.qtype && self.qname == other.qname
    }
}

impl vstd::std_specs::cmp::PartialEqSpecImpl for Key {
    open spec fn obeys_eq_spec() -> bool {
        true
    }

    open spec fn eq_spec(&self, other: &Key) -> bool {
        self@ == other@
    }
}

impl Eq for Key {

}

impl Clone for Key {
    fn clone(&self) -> (copy: Key)
        ensures
            copy@ == self@,
    {
        Key { qname: self.qname.clone(), qtype: self.qtype }
    }
}

/// Keys compare by what they ask.
proof fn lemma_keys_compare()
    ensures
        vstd::laws_eq::obeys_view_eq::<Key>(),
{
    reveal(vstd::laws_eq::obeys_view_eq);
}

/// What a fetch from the upstream resolver brought.
#[derive(Debug, PartialEq, Eq)]
pub enum Fetched {
    /// A message.
    Message(Vec<u8>),
    /// Nothing, for this reason.
    Failed(String),
}

/// What a fetch brought, as mathematics.
pub enum FetchedView {
    Message(Seq<u8>),
    Failed(Seq<char>),
}

impl View for Fetched {
    type V = FetchedView;

    open spec fn view(&self) -> FetchedView {
        match self {
            Fetched::Message(bytes) => FetchedView::Message(bytes@),
            Fetched::Failed(reason) => FetchedView::Failed(reason@),
        }
    }
}

impl Clone for Fetched {
    fn clone(&self) -> (copy: Fetched)
        ensures
            copy@ == self@,
    {
        match self {
            Fetched::Message(bytes) => Fetched::Message(
                vstd::slice::slice_to_vec(bytes.as_slice()),
            ),
            Fetched::Failed(reason) => Fetched::Failed(reason.clone()),
        }
    }
}

/// A message in the cache.
#[derive(Debug, PartialEq, Eq)]
pub struct Entry {
    /// The message as it was fetched.
    pub bytes: Vec<u8>,
    /// When the question was asked that it was fetched for.
    pub fetched_at_ms: u64,
    /// The seconds for which it may be served.
    pub ttl_secs: u32,
}

/// A message in the cache, as mathematics.
pub struct EntryView {
    pub bytes: Seq<u8>,
    pub fetched_at_ms: u64,
    pub ttl_secs: u32,
}

impl View for Entry {
    type V = EntryView;

    open spec fn view(&self) -> EntryView {
        EntryView {
            bytes: self.bytes@,
            fetched_at_ms: self.fetched_at_ms,
            ttl_secs: self.ttl_secs,
        }
    }
}

/// The messages that are kept, each under its question.
pub type Kept = Map<(Seq<char>, u16), EntryView>;

/// The fetches under way, each under its question with those who wait for it.
pub type UnderWay = coalesce::Waiting<(Seq<char>, u16), Fetched>;

// ---------------------------------------------------------------------------
// What the cache answers

/// The answer to a question out of the cache: the message that is kept for it,
/// as it is now and under the asker's id; none once its TTL has run out.
pub open spec fn fresh_answer(
    kept: Kept,
    question: (Seq<char>, u16),
    client_id: u16,
    now_ms: u64,
) -> Option<Seq<u8>> {
    if kept.contains_key(question) {
        let entry = kept[question];
        let elapsed = edge::secs_between(entry.fetched_at_ms, now_ms);
        if elapsed < entry.ttl_secs {
            Some(dns::served(entry.bytes, client_id, elapsed))
        } else {
            None
        }
    } else {
        None
    }
}

/// The cache once a message was fetched: the message is kept where none is
/// kept for the question yet.
pub open spec fn remembered(
    kept: Kept,
    question: (Seq<char>, u16),
    bytes: Seq<u8>,
    asked_ms: u64,
) -> Kept {
    if kept.contains_key(question) {
        kept
    } else {
        kept.insert(
            question,
            EntryView { bytes, fetched_at_ms: asked_ms, ttl_secs: dns::kept_secs(bytes) },
        )
    }
}

/// A message that may be missing, as mathematics.
pub open spec fn bytes_view(bytes: Option<Vec<u8>>) -> Option<Seq<u8>> {
    match bytes {
        Some(b) => Some(b@),
        None => None,
    }
}

// ---------------------------------------------------------------------------
// The resolver

/// The object that serves a region.
pub struct Resolver {
    cache: StringHashMap<Entry>,
    coalescer: Coalescer<Key, Fetched>,
}

/// The object that serves a region, as mathematics.
pub struct ResolverView {
    pub kept: Kept,
    pub under_way: UnderWay,
}

/// A question that waits for a fetch.
#[derive(Debug, PartialEq, Eq)]
pub struct Pending {
    pub key: Key,
    /// The id of the query.
    pub client_id: u16,
    /// When it was asked.
    pub asked_ms: u64,
}

impl View for Pending {
    type V = ((Seq<char>, u16), u16, u64);

    open spec fn view(&self) -> Self::V {
        (self.key@, self.client_id, self.asked_ms)
    }
}

/// What a resolver does with a query.
pub enum Step {
    /// It answers at once.
    Reply(Response),
    /// It fetches the answer, for itself and for all who ask the same meanwhile.
    Lead(Pending),
    /// It waits for the answer that is being fetched.
    Follow(Pending, oneshot::Receiver<Fetched>),
}

impl View for Resolver {
    type V = ResolverView;

    closed spec fn view(&self) -> ResolverView {
        ResolverView {
            kept: Map::new(
                |q: (Seq<char>, u16)| self.cache@.contains_key(edge::key_text(q.0, q.1)),
                |q: (Seq<char>, u16)| self.cache@[edge::key_text(q.0, q.1)]@,
            ),
            under_way: self.coalescer@,
        }
    }
}

/// Every message in the cache is kept for as long as the message says.
pub open spec fn ttls_hold(kept: Kept) -> bool {
    forall|q: (Seq<char>, u16)|
        #[trigger] kept.contains_key(q) ==> kept[q].ttl_secs == dns::kept_secs(kept[q].bytes)
}

/// What a query is answered with that holds no question.
pub open spec fn unparseable() -> http::ResponseView {
    http::error_reply("unparseable dns query"@, 400)
}

/// What a query is answered with, once what it asks was fetched or could not
/// be fetched.
pub open spec fn fetched_reply(fetched: FetchedView, client_id: u16) -> http::ResponseView {
    match fetched {
        FetchedView::Message(bytes) => http::region_reply(dns::with_id(bytes, client_id), "MISS"@),
        FetchedView::Failed(reason) => http::error_reply("upstream: "@ + reason, 502),
    }
}

/// What taking a query does: a query without a question is refused, one that
/// the cache can answer is answered, and any other joins those who ask the same.
pub open spec fn begins(
    before: ResolverView,
    query: Seq<u8>,
    now_ms: u64,
    step: Step,
    after: ResolverView,
) -> bool {
    &&& after.kept == before.kept
    &&& match dns::question_of(query) {
        None => {
            &&& step matches Step::Reply(response) && response@ == unparseable()
            &&& after.under_way == before.under_way
        },
        Some(question) => match fresh_answer(
            before.kept,
            question,
            dns::u16_at(query, 0),
            now_ms,
        ) {
            Some(bytes) => {
                &&& step matches Step::Reply(response) && response@ == http::region_reply(
                    bytes,
                    "HIT"@,
                )
                &&& after.under_way == before.under_way
            },
            None => match step {
                Step::Reply(_) => false,
                Step::Lead(pending) => {
                    &&& pending@ == (question, dns::u16_at(query, 0), now_ms)
                    &&& coalesce::joins(
                        before.under_way,
                        question,
                        Joined::Leader,
                        after.under_way,
                    )
                },
                Step::Follow(pending, rx) => {
                    &&& pending@ == (question, dns::u16_at(query, 0), now_ms)
                    &&& coalesce::joins(
                        before.under_way,
                        question,
                        Joined::Follower(rx),
                        after.under_way,
                    )
                },
            },
        },
    }
}

/// The cache once a fetch for a question is over.
pub open spec fn kept_after(
    kept: Kept,
    question: (Seq<char>, u16),
    fetched: FetchedView,
    asked_ms: u64,
) -> Kept {
    match fetched {
        FetchedView::Message(bytes) => remembered(kept, question, bytes, asked_ms),
        FetchedView::Failed(_) => kept,
    }
}

impl Resolver {
    /// What holds of a resolver at all times.
    pub closed spec fn wf(&self) -> bool {
        &&& self.coalescer.wf()
        &&& ttls_hold(self@.kept)
    }

    /// A resolver that has nothing yet.
    pub fn new() -> (r: Resolver)
        ensures
            r.wf(),
            r@.kept == Map::<(Seq<char>, u16), EntryView>::empty(),
            r@.under_way == Map::<(Seq<char>, u16), Seq<oneshot::Sender<Fetched>>>::empty(),
    {
        let r = Resolver { cache: StringHashMap::new(), coalescer: Coalescer::new() };
        assert(r@.kept =~= Map::<(Seq<char>, u16), EntryView>::empty());
        r
    }

    /// Answers a question out of the cache, where the message that is kept for
    /// it has time left.
    pub fn serve_from_cache(&self, key: &Key, client_id: u16, now_ms: u64) -> (served: Option<
        Vec<u8>,
    >)
        ensures
            bytes_view(served) == fresh_answer(self@.kept, key@, client_id, now_ms),
    {
        let name = edge::cache_key(key.qname.as_str(), key.qtype);
        match self.cache.get(name.as_str()) {
            Some(entry) => {
                let elapsed = edge::elapsed_secs(entry.fetched_at_ms, now_ms);
                if elapsed >= entry.ttl_secs {
                    return None;
                }
                let mut bytes = vstd::slice::slice_to_vec(entry.bytes.as_slice());
                dns::apply_cache_hit(bytes.as_mut_slice(), client_id, elapsed);
                Some(bytes)
            },
            None => None,
        }
    }

    /// Takes a query: answers it out of the cache, or joins those who ask the
    /// same.
    ///
    /// Whoever is told to lead fetches the answer and calls `settle` with it;
    /// whoever is told to follow gets it through the receiver. Both then call
    /// `finish`.
    pub fn begin(&mut self, query: &[u8], now_ms: u64) -> (step: Step)
        requires
            old(self).wf(),
        ensures
            final(self).wf(),
            begins(old(self)@, query@, now_ms, step, final(self)@),
    {
        let (qname, qtype) = match dns::parse_question(query) {
            Some(question) => question,
            None => {
                return Step::Reply(http::error_response("unparseable dns query".to_owned(), 400));
            },
        };
        let key = Key { qname, qtype };
        let client_id = dns::read_id(query);
        match self.serve_from_cache(&key, client_id, now_ms) {
            Some(bytes) => {
                return Step::Reply(http::bytes_response(bytes, "HIT"));
            },
            None => {},
        }
        proof {
            lemma_keys_compare();
        }
        let pending = Pending { key: key.clone(), client_id, asked_ms: now_ms };
        match self.coalescer.join(key) {
            Joined::Leader => Step::Lead(pending),
            Joined::Follower(rx) => Step::Follow(pending, rx),
        }
    }

    /// Ends the fetch that a leader made, and hands what it brought to all who
    /// wait for it. The results say what became of each.
    pub fn settle(&mut self, pending: &Pending, fetched: &Fetched) -> (outcomes: Vec<
        Result<(), Fetched>,
    >)
        requires
            old(self).wf(),
        ensures
            final(self).wf(),
            final(self)@.kept == old(self)@.kept,
            coalesce::settles(
                old(self)@.under_way,
                pending.key@,
                *fetched,
                outcomes@,
                final(self)@.under_way,
            ),
    {
        proof {
            lemma_keys_compare();
        }
        self.coalescer.settle(&pending.key, fetched)
    }

    /// Answers a query with what was fetched, and keeps that where nothing is
    /// kept for the question yet.
    pub fn finish(&mut self, pending: Pending, fetched: Fetched) -> (response: Response)
        requires
            old(self).wf(),
        ensures
            final(self).wf(),
            final(self)@.under_way == old(self)@.under_way,
            final(self)@.kept == kept_after(
                old(self)@.kept,
                pending.key@,
                fetched@,
                pending.asked_ms,
            ),
            response@ == fetched_reply(fetched@, pending.client_id),
    {
        match fetched {
            Fetched::Failed(reason) => {
                let mut message = "upstream: ".to_owned();
                message.append(reason.as_str());
                http::error_response(message, 502)
            },
            Fetched::Message(bytes) => {
                let mut out = vstd::slice::slice_to_vec(bytes.as_slice());
                self.remember(&pending.key, bytes, pending.asked_ms);
                dns::rewrite_id(out.as_mut_slice(), pending.client_id);
                http::bytes_response(out, "MISS")
            },
        }
    }

    /// Keeps a message where nothing is kept for its question yet.
    fn remember(&mut self, key: &Key, bytes: Vec<u8>, asked_ms: u64)
        requires
            old(self).wf(),
        ensures
            final(self).wf(),
            final(self)@.under_way == old(self)@.under_way,
            final(self)@.kept == remembered(old(self)@.kept, key@, bytes@, asked_ms),
    {
        let name = edge::cache_key(key.qname.as_str(), key.qtype);
        if self.cache.contains_key(name.as_str()) {
            return;
        }
        let ttl_secs = dns::cache_ttl(bytes.as_slice());
        let ghost was = *self;
        self.cache.insert(name, Entry { bytes, fetched_at_ms: asked_ms, ttl_secs });
        proof {
            let next = remembered(was@.kept, key@, bytes@, asked_ms);
            assert forall|q: (Seq<char>, u16)| #[trigger]
                self@.kept.contains_key(q) == next.contains_key(q) && (next.contains_key(q)
                    ==> self@.kept[q] == next[q]) by {
                if edge::key_text(q.0, q.1) == name@ {
                    edge::law_keys_differ(q.0, q.1, key@.0, key@.1);
                }
            }
            assert(self@.kept =~= next);
        }
    }
}

// ---------------------------------------------------------------------------
// Laws

/// A resolver keeps every message for as long as the message says.
pub proof fn law_ttls_hold(r: Resolver)
    requires
        r.wf(),
    ensures
        ttls_hold(r@.kept),
{
}

/// What was kept is what is served: until its TTL has run out, a question is
/// answered with the message that was fetched for it, aged and under the
/// asker's id; from then on it is not answered out of the cache.
pub proof fn law_kept_is_served(
    kept: Kept,
    question: (Seq<char>, u16),
    bytes: Seq<u8>,
    asked_ms: u64,
    client_id: u16,
    now_ms: u64,
)
    requires
        !kept.contains_key(question),
    ensures
        fresh_answer(remembered(kept, question, bytes, asked_ms), question, client_id, now_ms) == (
        if edge::secs_between(asked_ms, now_ms) < dns::kept_secs(bytes) {
            Some(dns::served(bytes, client_id, edge::secs_between(asked_ms, now_ms)))
        } else {
            None
        }),
{
}

/// The first message kept for a question stays: later ones do not replace it,
/// whether or not its TTL has run out.
pub proof fn law_first_message_stays(
    kept: Kept,
    question: (Seq<char>, u16),
    first: Seq<u8>,
    first_ms: u64,
    later: Seq<u8>,
    later_ms: u64,
)
    ensures
        remembered(remembered(kept, question, first, first_ms), question, later, later_ms)
            == remembered(kept, question, first, first_ms),
{
}

/// What is kept for one question changes no answer to another.
pub proof fn law_questions_are_independent(
    kept: Kept,
    question: (Seq<char>, u16),
    bytes: Seq<u8>,
    asked_ms: u64,
    other: (Seq<char>, u16),
    client_id: u16,
    now_ms: u64,
)
    requires
        other != question,
    ensures
        fresh_answer(remembered(kept, question, bytes, asked_ms), other, client_id, now_ms)
            == fresh_answer(kept, other, client_id, now_ms),
{
}

/// An answer out of the cache asks what the fetched message asked and carries
/// the asker's id, and every TTL in it is what is left of the fetched one. None
/// of them has run out, but where a message that denies its name has a TTL
/// shorter than the time for which such messages are kept.
pub proof fn law_cached_answers_are_fresh(
    kept: Kept,
    question: (Seq<char>, u16),
    client_id: u16,
    now_ms: u64,
    out: Seq<u8>,
)
    requires
        ttls_hold(kept),
        fresh_answer(kept, question, client_id, now_ms) == Some(out),
    ensures
        kept.contains_key(question),
        out.len() == kept[question].bytes.len(),
        out.len() >= 2 ==> dns::u16_at(out, 0) == client_id,
        dns::question_of(out) == dns::question_of(kept[question].bytes),
        dns::answer_fields(out) == dns::answer_fields(kept[question].bytes),
        forall|i: int|
            0 <= i < dns::answer_fields(out).len() ==> dns::u32_at(
                out,
                #[trigger] dns::answer_fields(out)[i],
            ) == dns::aged(
                dns::u32_at(kept[question].bytes, dns::answer_fields(out)[i]),
                edge::secs_between(kept[question].fetched_at_ms, now_ms),
            ),
        dns::kept_secs(kept[question].bytes) <= dns::ttl_of(kept[question].bytes) ==> forall|i: int|
            0 <= i < dns::answer_fields(out).len() ==> dns::u32_at(
                out,
                #[trigger] dns::answer_fields(out)[i],
            ) > 0,
{
    let entry = kept[question];
    let elapsed = edge::secs_between(entry.fetched_at_ms, now_ms);
    crate::dns_laws::law_served(entry.bytes, client_id, elapsed);
    if dns::kept_secs(entry.bytes) <= dns::ttl_of(entry.bytes) {
        crate::dns_laws::law_fresh_answers(entry.bytes, client_id, elapsed);
    }
    crate::dns_laws::law_served_question(entry.bytes, client_id, elapsed);
}

/// One thing that happens to a resolver.
pub enum Event {
    /// A query comes, at a time, and this is what is done with it.
    Begin(Seq<u8>, u64, Step),
    /// The fetch for a question ends with this, and this became of those who
    /// wait for it.
    Settle((Seq<char>, u16), Fetched, Seq<Result<(), Fetched>>),
    /// A query for a question, asked at a time, is answered with this.
    Finish((Seq<char>, u16), u64, FetchedView),
}

/// What an event does.
pub open spec fn happens(before: ResolverView, event: Event, after: ResolverView) -> bool {
    match event {
        Event::Begin(query, now_ms, step) => begins(before, query, now_ms, step, after),
        Event::Settle(question, fetched, outcomes) => {
            &&& after.kept == before.kept
            &&& coalesce::settles(
                before.under_way,
                question,
                fetched,
                outcomes,
                after.under_way,
            )
        },
        Event::Finish(question, asked_ms, fetched) => {
            &&& after.kept == kept_after(before.kept, question, fetched, asked_ms)
            &&& after.under_way == before.under_way
        },
    }
}

/// A resolver's history: each event leads from one state to the next.
pub open spec fn history(states: Seq<ResolverView>, events: Seq<Event>) -> bool {
    &&& states.len() == events.len() + 1
    &&& forall|i: int|
        0 <= i < events.len() ==> happens(states[i], #[trigger] events[i], states[i + 1])
}

/// Whether a query for `question` has to be fetched.
pub open spec fn fetches(event: Event, question: (Seq<char>, u16)) -> bool {
    event matches Event::Begin(_, _, Step::Lead(pending)) && pending.key@ == question
}

/// Whether the fetch for `question` ends.
pub open spec fn settles_for(event: Event, question: (Seq<char>, u16)) -> bool {
    event matches Event::Settle(q, _, _) && q == question
}

/// Until the fetch for a question ends, it stays under way, and those who wait
/// for it keep their places.
proof fn lemma_under_way(
    states: Seq<ResolverView>,
    events: Seq<Event>,
    question: (Seq<char>, u16),
    from: int,
    to: int,
)
    requires
        history(states, events),
        0 <= from <= to <= events.len(),
        states[from].under_way.contains_key(question),
        forall|k: int| from <= k < to ==> !settles_for(#[trigger] events[k], question),
    ensures
        states[to].under_way.contains_key(question),
        states[from].under_way[question].len() <= states[to].under_way[question].len(),
        forall|n: int|
            0 <= n < states[from].under_way[question].len() ==> #[trigger] states[to].under_way[question][n]
                == states[from].under_way[question][n],
    decreases to - from,
{
    if from < to {
        lemma_under_way(states, events, question, from, to - 1);
        assert(happens(states[to - 1], events[to - 1], states[to - 1 + 1]));
        assert(!settles_for(events[to - 1], question));
    }
}

/// However many ask the same at the same time, it is fetched once: between two
/// queries that fetch the answer to one question, the first fetch has ended.
pub proof fn law_one_fetch_at_a_time(
    states: Seq<ResolverView>,
    events: Seq<Event>,
    question: (Seq<char>, u16),
    i: int,
    j: int,
)
    requires
        history(states, events),
        0 <= i < j < events.len(),
        fetches(events[i], question),
        fetches(events[j], question),
    ensures
        exists|k: int| i < k < j && settles_for(#[trigger] events[k], question),
{
    assert(happens(states[i], events[i], states[i + 1]));
    assert(happens(states[j], events[j], states[j + 1]));
    if forall|k: int| i < k < j ==> !settles_for(#[trigger] events[k], question) {
        lemma_under_way(states, events, question, i + 1, j);
    }
}

/// Whoever waits for a fetch gets what it brought: the receiver resolves to a
/// copy of it, unless the asker had gone away by then, and the reply that is
/// made of the copy is the one that is made of what was fetched.
pub proof fn law_one_fetch_answers_all(
    states: Seq<ResolverView>,
    events: Seq<Event>,
    query: Seq<u8>,
    asked_ms: u64,
    pending: Pending,
    rx: oneshot::Receiver<Fetched>,
    i: int,
    fetched: Fetched,
    outcomes: Seq<Result<(), Fetched>>,
    j: int,
)
    requires
        history(states, events),
        0 <= i < j < events.len(),
        events[i] == Event::Begin(query, asked_ms, Step::Follow(pending, rx)),
        events[j] == Event::Settle(pending.key@, fetched, outcomes),
        forall|k: int| i < k < j ==> !settles_for(#[trigger] events[k], pending.key@),
    ensures
        states[i].under_way[pending.key@].len() < outcomes.len(),
        outcomes[states[i].under_way[pending.key@].len() as int] is Ok ==> exists|copy: Fetched|
            #[trigger] cloned(fetched, copy) && (rx@ == Ok::<Fetched, oneshot::Canceled>(copy))
                && fetched_reply(copy@, pending.client_id) == fetched_reply(
                fetched@,
                pending.client_id,
            ),
{
    let question = pending.key@;
    assert(happens(states[i], events[i], states[i + 1]));
    lemma_under_way(states, events, question, i + 1, j);
    assert(happens(states[j], events[j], states[j + 1]));
    coalesce::lemma_waiter_hears(
        states[i].under_way,
        question,
        rx,
        states[i + 1].under_way,
        states[j].under_way,
        fetched,
        outcomes,
        states[j + 1].under_way,
    );
}

/// What is kept for a question stays as it is, whatever happens.
pub proof fn law_entries_stay(
    states: Seq<ResolverView>,
    events: Seq<Event>,
    question: (Seq<char>, u16),
    i: int,
    j: int,
)
    requires
        history(states, events),
        0 <= i <= j <= events.len(),
        states[i].kept.contains_key(question),
    ensures
        states[j].kept.contains_key(question),
        states[j].kept[question] == states[i].kept[question],
    decreases j - i,
{
    if i < j {
        law_entries_stay(states, events, question, i, j - 1);
        assert(happens(states[j - 1], events[j - 1], states[j - 1 + 1]));
    }
}

/// Whoever waited for a fetch is answered as the leader would be, but for the
/// id: a copy of what was fetched makes the same reply.
pub proof fn law_followers_are_answered_alike(fetched: Fetched, copy: Fetched, client_id: u16)
    requires
        cloned(fetched, copy),
    ensures
        fetched_reply(copy@, client_id) == fetched_reply(fetched@, client_id),
{
}

} // verus!
