//! Sharing one fetch among all who ask for the same thing at the same time.
use futures_channel::oneshot;
use vstd::future::FutureAdditionalSpecFns;
use vstd::prelude::*;

verus! {

// ---------------------------------------------------------------------------
// One-shot channels

/// The sending half of a one-shot channel.
#[verifier::external_type_specification]
#[verifier::external_body]
#[verifier::reject_recursive_types(T)]
pub struct ExSender<T>(oneshot::Sender<T>);

/// The receiving half of a one-shot channel.
#[verifier::external_type_specification]
#[verifier::external_body]
#[verifier::reject_recursive_types(T)]
pub struct ExReceiver<T>(oneshot::Receiver<T>);

/// What a receiver resolves to when its sender went away without sending.
#[verifier::external_type_specification]
#[verifier::external_body]
pub struct ExCanceled(oneshot::Canceled);

/// `oneshot::channel` makes the two halves of a new channel. Whoever awaits the
/// receiver gets the value that its own sender was given, where the sender
/// reported that it took it. The claim is about a receiver that nothing else
/// was read from before.
pub assume_specification<T>[ oneshot::channel::<T> ]() -> (halves: (oneshot::Sender<T>, oneshot::Receiver<T>))
    ensures
        forall|v: T, r: Result<(), T>|
            r is Ok && #[trigger] call_ensures(oneshot::Sender::<T>::send, (halves.0, v), r)
                ==> (halves.1@ == Ok::<T, oneshot::Canceled>(v)),
;

/// `oneshot::Sender::send` takes a value for the receiver, or gives it back
/// unchanged where the receiver is gone. Which of the two happens is up to the
/// receiver's holder and is left open here.
pub assume_specification<T>[ oneshot::Sender::<T>::send ](tx: oneshot::Sender<T>, t: T) -> (r:
    Result<(), T>)
    ensures
        r matches Err(back) ==> back == t,
;

/// Two halves that were made together.
pub open spec fn paired<V>(tx: oneshot::Sender<V>, rx: oneshot::Receiver<V>) -> bool {
    call_ensures(oneshot::channel::<V>, (), (tx, rx))
}

/// What became of handing a copy of `value` to `tx`.
pub open spec fn handed<V: Clone>(tx: oneshot::Sender<V>, value: V, outcome: Result<(), V>) -> bool {
    exists|copy: V|
        cloned(value, copy) && #[trigger] call_ensures(
            oneshot::Sender::<V>::send,
            (tx, copy),
            outcome,
        )
}

// ---------------------------------------------------------------------------
// The coalescer

/// Lets concurrent callers for one key share a single fetch: the first becomes
/// the leader, the others wait, and each of them gets a copy of what the
/// leader fetched.
///
/// Its view has a key for each fetch under way, and under the key the senders
/// of those who wait for it, in the order in which they came.
#[verifier::reject_recursive_types(V)]
pub struct Coalescer<K, V> {
    inflight: Vec<(K, Vec<oneshot::Sender<V>>)>,
}

/// The part that a caller plays.
#[verifier::reject_recursive_types(V)]
pub enum Joined<V> {
    /// No fetch for the key is under way: the caller has to make it.
    Leader,
    /// One is under way, and the receiver resolves to what it brings.
    Follower(oneshot::Receiver<V>),
}

/// The fetches under way, each with those who wait for it.
pub type Waiting<Q, V> = Map<Q, Seq<oneshot::Sender<V>>>;

/// Those who wait for `key`; none where no fetch for it is under way.
pub open spec fn waiters<Q, V>(w: Waiting<Q, V>, key: Q) -> Seq<oneshot::Sender<V>> {
    if w.contains_key(key) {
        w[key]
    } else {
        seq![]
    }
}

/// What joining does: the first for a key leads and opens a list of waiters,
/// and anybody else is put at the end of that list and holds the receiver that
/// belongs to the sender there.
pub open spec fn joins<Q, V>(
    before: Waiting<Q, V>,
    key: Q,
    joined: Joined<V>,
    after: Waiting<Q, V>,
) -> bool {
    match joined {
        Joined::Leader => {
            &&& !before.contains_key(key)
            &&& after == before.insert(key, seq![])
        },
        Joined::Follower(rx) => {
            &&& before.contains_key(key)
            &&& exists|tx: oneshot::Sender<V>|
                #![trigger paired(tx, rx)]
                paired(tx, rx) && after == before.insert(key, before[key].push(tx))
        },
    }
}

proof fn lemma_follows<Q, V>(
    before: Waiting<Q, V>,
    key: Q,
    tx: oneshot::Sender<V>,
    rx: oneshot::Receiver<V>,
    after: Waiting<Q, V>,
)
    requires
        before.contains_key(key),
        paired(tx, rx),
        after == before.insert(key, before[key].push(tx)),
    ensures
        joins(before, key, Joined::Follower(rx), after),
{
    let joined = Joined::Follower(rx);
    assert(paired(tx, joined->Follower_0));
}

/// What settling does: the key is free again, and a copy of the value was
/// handed to each who waited, in the order in which they came.
pub open spec fn settles<Q, V: Clone>(
    before: Waiting<Q, V>,
    key: Q,
    value: V,
    outcomes: Seq<Result<(), V>>,
    after: Waiting<Q, V>,
) -> bool {
    &&& after == before.remove(key)
    &&& outcomes.len() == waiters(before, key).len()
    &&& forall|i: int|
        0 <= i < outcomes.len() ==> handed(waiters(before, key)[i], value, #[trigger] outcomes[i])
}

impl<K: View, V> View for Coalescer<K, V> {
    type V = Waiting<K::V, V>;

    closed spec fn view(&self) -> Waiting<K::V, V> {
        Map::new(
            |k: K::V| exists|i: int| self.holds_at(k, i),
            |k: K::V| self.inflight@[choose|i: int| self.holds_at(k, i)].1@,
        )
    }
}

impl<K: View, V> Coalescer<K, V> {
    /// Whether the fetch at `i` is for the key `k`.
    closed spec fn holds_at(&self, k: K::V, i: int) -> bool {
        0 <= i < self.inflight@.len() && self.inflight@[i].0@ == k
    }

    /// No key has two fetches under way.
    pub closed spec fn wf(&self) -> bool {
        forall|i: int, j: int|
            0 <= i < j < self.inflight@.len() ==> (#[trigger] self.inflight@[i]).0@ != (
            #[trigger] self.inflight@[j]).0@
    }

    /// What is known of the view under a key that is held.
    proof fn lemma_view_at(&self, i: int)
        requires
            self.wf(),
            0 <= i < self.inflight@.len(),
        ensures
            self@.contains_key(self.inflight@[i].0@),
            self@[self.inflight@[i].0@] == self.inflight@[i].1@,
    {
        let k = self.inflight@[i].0@;
        assert(self.holds_at(k, i));
        let j = choose|j: int| self.holds_at(k, j);
        assert(self.holds_at(k, j));
        assert(i == j);
    }

    /// A map is the view where it has the keys that are held, and under each
    /// the senders that are held with it.
    proof fn lemma_view_is(&self, w: Waiting<K::V, V>)
        requires
            self.wf(),
            forall|i: int|
                0 <= i < self.inflight@.len() ==> w.contains_key(
                    (#[trigger] self.inflight@[i]).0@,
                ) && w[self.inflight@[i].0@] == self.inflight@[i].1@,
            forall|k: K::V| #[trigger]
                w.contains_key(k) ==> exists|i: int| self.holds_at(k, i),
        ensures
            self@ == w,
    {
        assert forall|k: K::V| self@.contains_key(k) == w.contains_key(k) && (w.contains_key(k)
            ==> self@[k] == w[k]) by {
            if exists|i: int| self.holds_at(k, i) {
                let i = choose|i: int| self.holds_at(k, i);
                self.lemma_view_at(i);
            }
        }
        assert(self@ =~= w);
    }

    /// The keys of the view are those that are held.
    proof fn lemma_held(&self, k: K::V)
        requires
            self@.contains_key(k),
        ensures
            exists|i: int| self.holds_at(k, i),
    {
    }
}

impl<K: View + Eq, V: Clone> Coalescer<K, V> {
    /// A coalescer with no fetch under way.
    pub fn new() -> (c: Self)
        ensures
            c.wf(),
            c@ == Map::<K::V, Seq<oneshot::Sender<V>>>::empty(),
    {
        let c = Coalescer { inflight: Vec::new() };
        assert(c@ =~= Map::<K::V, Seq<oneshot::Sender<V>>>::empty()) by {
            assert(forall|k: K::V, i: int| !c.holds_at(k, i));
        }
        c
    }

    /// The place of the fetch for `key`.
    fn find(&self, key: &K) -> (place: Option<usize>)
        requires
            vstd::laws_eq::obeys_view_eq::<K>(),
        ensures
            match place {
                Some(i) => self.holds_at(key@, i as int),
                None => !self@.contains_key(key@),
            },
    {
        proof {
            reveal(vstd::laws_eq::obeys_view_eq);
        }
        let mut i: usize = 0;
        while i < self.inflight.len()
            invariant
                i <= self.inflight@.len(),
                vstd::laws_eq::obeys_view_eq::<K>(),
                forall|j: int| 0 <= j < i ==> !self.holds_at(key@, j),
            decreases self.inflight@.len() - i,
        {
            proof {
                reveal(vstd::laws_eq::obeys_view_eq);
            }
            if self.inflight[i].0 == *key {
                return Some(i);
            }
            i = i + 1;
        }
        None
    }

    /// Joins the callers for `key`.
    ///
    /// Whoever comes first leads, and owes a call of `settle` once the fetch is
    /// done. The lookup and the entry into the list are one step, so there are
    /// never two leaders for a key.
    pub fn join(&mut self, key: K) -> (joined: Joined<V>)
        requires
            old(self).wf(),
            vstd::laws_eq::obeys_view_eq::<K>(),
        ensures
            final(self).wf(),
            joins(old(self)@, key@, joined, final(self)@),
    {
        match self.find(&key) {
            Some(i) => {
                let (tx, rx) = oneshot::channel::<V>();
                self.inflight[i].1.push(tx);
                proof {
                    let was = *old(self);
                    was.lemma_view_at(i as int);
                    assert forall|j: int| 0 <= j < self.inflight@.len() implies (
                    #[trigger] self.inflight@[j]).0@ == was.inflight@[j].0@ && self.inflight@[j].1@
                        == (if j == i {
                        was.inflight@[j].1@.push(tx)
                    } else {
                        was.inflight@[j].1@
                    }) by {}
                    let w = was@.insert(key@, was@[key@].push(tx));
                    assert forall|j: int| 0 <= j < self.inflight@.len() implies w.contains_key(
                        (#[trigger] self.inflight@[j]).0@,
                    ) && w[self.inflight@[j].0@] == self.inflight@[j].1@ by {
                        was.lemma_view_at(j);
                    }
                    assert forall|k: K::V| #[trigger] w.contains_key(k) implies exists|j: int|
                        self.holds_at(k, j) by {
                        was.lemma_held(k);
                        let j = choose|j: int| was.holds_at(k, j);
                        assert(self.holds_at(k, j));
                    }
                    self.lemma_view_is(w);
                    lemma_follows(was@, key@, tx, rx, self@);
                }
                Joined::Follower(rx)
            },
            None => {
                self.inflight.push((key, Vec::new()));
                proof {
                    let was = *old(self);
                    let n = was.inflight@.len() as int;
                    assert forall|j: int| 0 <= j < n implies (#[trigger] self.inflight@[j]).0@
                        != key@ by {
                        was.lemma_view_at(j);
                    }
                    let w = was@.insert(key@, seq![]);
                    assert forall|j: int| 0 <= j < self.inflight@.len() implies w.contains_key(
                        (#[trigger] self.inflight@[j]).0@,
                    ) && w[self.inflight@[j].0@] == self.inflight@[j].1@ by {
                        if j < n {
                            was.lemma_view_at(j);
                        }
                    }
                    assert forall|k: K::V| #[trigger] w.contains_key(k) implies exists|j: int|
                        self.holds_at(k, j) by {
                        if k == key@ {
                            assert(self.holds_at(k, n));
                        } else {
                            was.lemma_held(k);
                            let j = choose|j: int| was.holds_at(k, j);
                            assert(self.holds_at(k, j));
                        }
                    }
                    self.lemma_view_is(w);
                }
                Joined::Leader
            },
        }
    }

    /// Ends the fetch for `key` and hands a copy of what it brought to each who
    /// waited for it, in the order in which they came. The results say what
    /// became of each: a waiter that has gone away gives its copy back.
    pub fn settle(&mut self, key: &K, value: &V) -> (outcomes: Vec<Result<(), V>>)
        requires
            old(self).wf(),
            vstd::laws_eq::obeys_view_eq::<K>(),
        ensures
            final(self).wf(),
            settles(old(self)@, key@, *value, outcomes@, final(self)@),
    {
        let mut outcomes: Vec<Result<(), V>> = Vec::new();
        match self.find(key) {
            Some(i) => {
                let (_, senders) = self.inflight.remove(i);
                proof {
                    let was = *old(self);
                    was.lemma_view_at(i as int);
                    assert(senders@ == waiters(was@, key@));
                    let w = was@.remove(key@);
                    assert forall|j: int| 0 <= j < self.inflight@.len() implies w.contains_key(
                        (#[trigger] self.inflight@[j]).0@,
                    ) && w[self.inflight@[j].0@] == self.inflight@[j].1@ by {
                        was.lemma_view_at(if j < i { j } else { j + 1 });
                    }
                    assert forall|k: K::V| #[trigger] w.contains_key(k) implies exists|j: int|
                        self.holds_at(k, j) by {
                        was.lemma_held(k);
                        let j = choose|j: int| was.holds_at(k, j);
                        assert(self.holds_at(k, if j < i { j } else { j - 1 }));
                    }
                    self.lemma_view_is(w);
                }
                let ghost waiting = senders@;
                for tx in it: senders
                    invariant
                        it.seq() == waiting,
                        outcomes@.len() == it.index(),
                        forall|j: int|
                            0 <= j < outcomes@.len() ==> handed(
                                waiting[j],
                                *value,
                                #[trigger] outcomes@[j],
                            ),
                {
                    let copy = value.clone();
                    let outcome = tx.send(copy);
                    assert(handed(waiting[it.index() as int], *value, outcome));
                    outcomes.push(outcome);
                }
            },
            None => {
                assert(self@.remove(key@) =~= self@);
            },
        }
        outcomes
    }
}

impl<K: View + Eq, V: Clone> Default for Coalescer<K, V> {
    fn default() -> (c: Self)
        ensures
            c.wf(),
            c@ == Map::<K::V, Seq<oneshot::Sender<V>>>::empty(),
    {
        Self::new()
    }
}

// ---------------------------------------------------------------------------
// Laws

/// One thing that happens to a coalescer.
#[verifier::reject_recursive_types(V)]
pub enum Event<Q, V> {
    Join(Q, Joined<V>),
    Settle(Q, V, Seq<Result<(), V>>),
}

/// What an event does.
pub open spec fn happens<Q, V: Clone>(
    before: Waiting<Q, V>,
    event: Event<Q, V>,
    after: Waiting<Q, V>,
) -> bool {
    match event {
        Event::Join(key, joined) => joins(before, key, joined, after),
        Event::Settle(key, value, outcomes) => settles(before, key, value, outcomes, after),
    }
}

/// A coalescer's history: each event leads from one state to the next.
pub open spec fn history<Q, V: Clone>(
    states: Seq<Waiting<Q, V>>,
    events: Seq<Event<Q, V>>,
) -> bool {
    &&& states.len() == events.len() + 1
    &&& forall|i: int|
        0 <= i < events.len() ==> happens(states[i], #[trigger] events[i], states[i + 1])
}

/// Whether somebody becomes the leader for `key`.
pub open spec fn leads<Q, V>(event: Event<Q, V>, key: Q) -> bool {
    event matches Event::Join(k, joined) && k == key && joined is Leader
}

/// Whether somebody joins the callers for `key`.
pub open spec fn joins_for<Q, V>(event: Event<Q, V>, key: Q) -> bool {
    event matches Event::Join(k, _) && k == key
}

/// Whether the fetch for `key` ends.
pub open spec fn settles_for<Q, V>(event: Event<Q, V>, key: Q) -> bool {
    event matches Event::Settle(k, _, _) && k == key
}

/// Until the fetch for a key ends, it stays under way, and those who wait for
/// it keep their places.
proof fn lemma_under_way<Q, V: Clone>(
    states: Seq<Waiting<Q, V>>,
    events: Seq<Event<Q, V>>,
    key: Q,
    from: int,
    to: int,
)
    requires
        history(states, events),
        0 <= from <= to <= events.len(),
        states[from].contains_key(key),
        forall|k: int| from <= k < to ==> !settles_for(#[trigger] events[k], key),
    ensures
        states[to].contains_key(key),
        states[from][key].len() <= states[to][key].len(),
        forall|n: int|
            0 <= n < states[from][key].len() ==> #[trigger] states[to][key][n]
                == states[from][key][n],
    decreases to - from,
{
    if from < to {
        lemma_under_way(states, events, key, from, to - 1);
        assert(happens(states[to - 1], events[to - 1], states[to - 1 + 1]));
        assert(!settles_for(events[to - 1], key));
    }
}

/// There are never two fetches for one key at a time: between two callers who
/// lead for it, the fetch of the first has ended.
pub proof fn law_one_leader_at_a_time<Q, V: Clone>(
    states: Seq<Waiting<Q, V>>,
    events: Seq<Event<Q, V>>,
    key: Q,
    i: int,
    j: int,
)
    requires
        history(states, events),
        0 <= i < j < events.len(),
        leads(events[i], key),
        leads(events[j], key),
    ensures
        exists|k: int| i < k < j && settles_for(#[trigger] events[k], key),
{
    assert(happens(states[i], events[i], states[i + 1]));
    assert(happens(states[j], events[j], states[j + 1]));
    if forall|k: int| i < k < j ==> !settles_for(#[trigger] events[k], key) {
        lemma_under_way(states, events, key, i + 1, j);
    }
}

/// However many join while a fetch for their key is under way, none of them
/// leads: they all share that fetch.
pub proof fn law_joiners_share_the_fetch<Q, V: Clone>(
    states: Seq<Waiting<Q, V>>,
    events: Seq<Event<Q, V>>,
    key: Q,
    i: int,
    j: int,
)
    requires
        history(states, events),
        0 <= i < j < events.len(),
        joins_for(events[i], key),
        joins_for(events[j], key),
        forall|k: int| i < k < j ==> !settles_for(#[trigger] events[k], key),
    ensures
        !leads(events[j], key),
{
    assert(happens(states[i], events[i], states[i + 1]));
    assert(happens(states[j], events[j], states[j + 1]));
    lemma_under_way(states, events, key, i + 1, j);
}

/// Nobody waits for a fetch that nobody makes: a fetch under way was begun by
/// a leader, and has not ended since.
pub proof fn law_followers_have_a_leader<Q, V: Clone>(
    states: Seq<Waiting<Q, V>>,
    events: Seq<Event<Q, V>>,
    key: Q,
    j: int,
)
    requires
        history(states, events),
        0 <= j < events.len(),
        !states[0].contains_key(key),
        joins_for(events[j], key),
        !leads(events[j], key),
    ensures
        exists|i: int|
            0 <= i < j && leads(#[trigger] events[i], key) && forall|k: int|
                i < k < j ==> !settles_for(#[trigger] events[k], key),
{
    assert(happens(states[j], events[j], states[j + 1]));
    lemma_begun(states, events, key, j);
}

proof fn lemma_begun<Q, V: Clone>(
    states: Seq<Waiting<Q, V>>,
    events: Seq<Event<Q, V>>,
    key: Q,
    to: int,
)
    requires
        history(states, events),
        0 <= to <= events.len(),
        !states[0].contains_key(key),
        states[to].contains_key(key),
    ensures
        exists|i: int|
            0 <= i < to && leads(#[trigger] events[i], key) && forall|k: int|
                i < k < to ==> !settles_for(#[trigger] events[k], key),
    decreases to,
{
    let last = to - 1;
    assert(happens(states[last], events[last], states[last + 1]));
    if states[last].contains_key(key) {
        lemma_begun(states, events, key, last);
        let i = choose|i: int|
            0 <= i < last && leads(#[trigger] events[i], key) && forall|k: int|
                i < k < last ==> !settles_for(#[trigger] events[k], key);
        assert(!settles_for(events[last], key));
        assert(leads(events[i], key));
    } else {
        assert(leads(events[last], key));
    }
}

/// Once the fetch for a key has ended, the next caller for it leads.
pub proof fn law_next_caller_leads<Q, V: Clone>(
    states: Seq<Waiting<Q, V>>,
    events: Seq<Event<Q, V>>,
    key: Q,
    i: int,
    j: int,
)
    requires
        history(states, events),
        0 <= i < j < events.len(),
        settles_for(events[i], key),
        joins_for(events[j], key),
        forall|k: int| i < k < j ==> !joins_for(#[trigger] events[k], key),
    ensures
        leads(events[j], key),
{
    assert(happens(states[i], events[i], states[i + 1]));
    lemma_still_free(states, events, key, i + 1, j);
    assert(happens(states[j], events[j], states[j + 1]));
}

proof fn lemma_still_free<Q, V: Clone>(
    states: Seq<Waiting<Q, V>>,
    events: Seq<Event<Q, V>>,
    key: Q,
    from: int,
    to: int,
)
    requires
        history(states, events),
        0 <= from <= to <= events.len(),
        !states[from].contains_key(key),
        forall|k: int| from <= k < to ==> !joins_for(#[trigger] events[k], key),
    ensures
        !states[to].contains_key(key),
    decreases to - from,
{
    if from < to {
        lemma_still_free(states, events, key, from, to - 1);
        assert(happens(states[to - 1], events[to - 1], states[to - 1 + 1]));
        assert(!joins_for(events[to - 1], key));
    }
}

/// What happens for one key changes nothing for another.
pub proof fn law_keys_are_independent<Q, V: Clone>(
    before: Waiting<Q, V>,
    event: Event<Q, V>,
    after: Waiting<Q, V>,
    key: Q,
)
    requires
        happens(before, event, after),
        !joins_for(event, key),
        !settles_for(event, key),
    ensures
        after.contains_key(key) == before.contains_key(key),
        waiters(after, key) == waiters(before, key),
{
}

/// Whoever waits for a fetch hears what it brought: the receiver resolves to a
/// copy of the leader's value, unless the waiter had gone away by then.
pub proof fn law_every_waiter_hears<Q, V: Clone>(
    states: Seq<Waiting<Q, V>>,
    events: Seq<Event<Q, V>>,
    key: Q,
    rx: oneshot::Receiver<V>,
    i: int,
    value: V,
    outcomes: Seq<Result<(), V>>,
    j: int,
)
    requires
        history(states, events),
        0 <= i < j < events.len(),
        events[i] == Event::Join(key, Joined::Follower(rx)),
        events[j] == Event::Settle(key, value, outcomes),
        forall|k: int| i < k < j ==> !settles_for(#[trigger] events[k], key),
    ensures
        states[i][key].len() < outcomes.len(),
        outcomes[states[i][key].len() as int] is Ok ==> exists|copy: V|
            #[trigger] cloned(value, copy) && (rx@ == Ok::<V, oneshot::Canceled>(copy)),
{
    assert(happens(states[i], events[i], states[i + 1]));
    lemma_under_way(states, events, key, i + 1, j);
    assert(happens(states[j], events[j], states[j + 1]));
    lemma_waiter_hears(
        states[i],
        key,
        rx,
        states[i + 1],
        states[j],
        value,
        outcomes,
        states[j + 1],
    );
}

/// Whoever joined as a waiter, and kept the place until the fetch ended, hears
/// what it brought.
pub(crate) proof fn lemma_waiter_hears<Q, V: Clone>(
    before: Waiting<Q, V>,
    key: Q,
    rx: oneshot::Receiver<V>,
    joined: Waiting<Q, V>,
    last: Waiting<Q, V>,
    value: V,
    outcomes: Seq<Result<(), V>>,
    after: Waiting<Q, V>,
)
    requires
        joins(before, key, Joined::Follower(rx), joined),
        last.contains_key(key),
        joined[key].len() <= last[key].len(),
        forall|n: int| 0 <= n < joined[key].len() ==> #[trigger] last[key][n] == joined[key][n],
        settles(last, key, value, outcomes, after),
    ensures
        before[key].len() < outcomes.len(),
        outcomes[before[key].len() as int] is Ok ==> exists|copy: V|
            #[trigger] cloned(value, copy) && (rx@ == Ok::<V, oneshot::Canceled>(copy)),
{
    let n = before[key].len() as int;
    let tx = choose|tx: oneshot::Sender<V>|
        #![trigger paired(tx, rx)]
        paired(tx, rx) && joined == before.insert(key, before[key].push(tx));
    assert(joined[key][n] == tx);
    assert(waiters(last, key)[n] == tx);
    assert(handed(tx, value, outcomes[n]));
    if outcomes[n] is Ok {
        let copy = choose|copy: V|
            cloned(value, copy) && #[trigger] call_ensures(
                oneshot::Sender::<V>::send,
                (tx, copy),
                outcomes[n],
            );
        assert(cloned(value, copy));
        lemma_resolves(tx, rx, copy, outcomes[n]);
    }
}

/// A receiver resolves to what its sender took.
proof fn lemma_resolves<V>(tx: oneshot::Sender<V>, rx: oneshot::Receiver<V>, v: V, r: Result<(), V>)
    requires
        paired(tx, rx),
        call_ensures(oneshot::Sender::<V>::send, (tx, v), r),
        r is Ok,
    ensures
        rx@ == Ok::<V, oneshot::Canceled>(v),
{
    let halves = (tx, rx);
    assert(call_ensures(oneshot::channel::<V>, (), halves));
    assert(call_ensures(oneshot::Sender::<V>::send, (halves.0, v), r));
}

} // verus!
