use doh_edge::coalesce::{Coalescer, Joined};
use futures::executor::block_on;
use futures::future::{join, join_all, poll_fn};
use std::cell::{Cell, RefCell};
use std::future::Future;
use std::rc::Rc;
use std::task::Poll;

/// The coalescer with its borrow windows: none is open across an await.
struct Shared {
    inner: RefCell<Coalescer<&'static str, u32>>,
}

impl Shared {
    fn new() -> Self {
        Shared { inner: RefCell::new(Coalescer::new()) }
    }

    async fn run<F, Fut>(&self, key: &'static str, fetch: F) -> u32
    where
        F: FnOnce() -> Fut,
        Fut: Future<Output = u32>,
    {
        let joined = self.inner.borrow_mut().join(key);
        match joined {
            Joined::Follower(rx) => rx.await.expect("leader dropped without sending"),
            Joined::Leader => {
                let value = fetch().await;
                self.inner.borrow_mut().settle(&key, &value);
                value
            }
        }
    }
}

async fn yield_once() {
    let mut yielded = false;
    poll_fn(|cx| {
        if yielded {
            Poll::Ready(())
        } else {
            yielded = true;
            cx.waker().wake_by_ref();
            Poll::Pending
        }
    })
    .await
}

#[test]
fn single_call_returns_fetched_value() {
    let c = Shared::new();
    let v = block_on(c.run("a", || async { 42 }));
    assert_eq!(v, 42);
}

#[test]
fn concurrent_same_key_fetches_once() {
    let c = Shared::new();
    let calls = Rc::new(Cell::new(0u32));

    let mk = || {
        let calls = calls.clone();
        move || {
            let calls = calls.clone();
            async move {
                yield_once().await;
                calls.set(calls.get() + 1);
                99u32
            }
        }
    };

    let (a, b) = block_on(join(c.run("k", mk()), c.run("k", mk())));
    assert_eq!((a, b), (99, 99));
    assert_eq!(calls.get(), 1);
}

#[test]
fn different_keys_fetch_independently() {
    let c = Shared::new();
    let calls = Rc::new(Cell::new(0u32));

    let mk = |val: u32| {
        let calls = calls.clone();
        move || {
            let calls = calls.clone();
            async move {
                calls.set(calls.get() + 1);
                val
            }
        }
    };

    let (a, b) = block_on(join(c.run("x", mk(1)), c.run("y", mk(2))));
    assert_eq!((a, b), (1, 2));
    assert_eq!(calls.get(), 2);
}

#[test]
fn many_waiters_all_receive_value() {
    let c = Shared::new();
    let calls = Rc::new(Cell::new(0u32));

    let futs: Vec<_> = (0..10)
        .map(|_| {
            let calls = calls.clone();
            c.run("k", move || async move {
                yield_once().await;
                calls.set(calls.get() + 1);
                7u32
            })
        })
        .collect();
    let results = block_on(join_all(futs));
    assert!(results.iter().all(|&v| v == 7));
    assert_eq!(calls.get(), 1);
}

#[test]
fn sequential_calls_each_fetch() {
    let c = Shared::new();
    let calls = Rc::new(Cell::new(0u32));

    for _ in 0..3 {
        let calls = calls.clone();
        let v = block_on(c.run("k", move || async move {
            calls.set(calls.get() + 1);
            5u32
        }));
        assert_eq!(v, 5);
    }
    assert_eq!(calls.get(), 3);
}

#[test]
fn first_leads_and_others_follow_until_settled() {
    let mut c: Coalescer<u64, u32> = Coalescer::default();
    assert!(matches!(c.join(1), Joined::Leader));
    assert!(matches!(c.join(1), Joined::Follower(_)));
    assert!(matches!(c.join(2), Joined::Leader));
    assert!(matches!(c.join(1), Joined::Follower(_)));
    c.settle(&1, &8);
    assert!(matches!(c.join(1), Joined::Leader));
    assert!(matches!(c.join(2), Joined::Follower(_)));
}

#[test]
fn waiters_hear_in_order_and_gone_ones_give_back() {
    let mut c: Coalescer<u64, String> = Coalescer::new();
    assert!(matches!(c.join(4), Joined::Leader));
    let first = match c.join(4) {
        Joined::Follower(rx) => rx,
        Joined::Leader => panic!("two leaders"),
    };
    match c.join(4) {
        Joined::Follower(rx) => drop(rx),
        Joined::Leader => panic!("two leaders"),
    }
    let third = match c.join(4) {
        Joined::Follower(rx) => rx,
        Joined::Leader => panic!("two leaders"),
    };
    let outcomes = c.settle(&4, &"v".to_string());
    assert_eq!(outcomes, vec![Ok(()), Err("v".to_string()), Ok(())]);
    assert_eq!(block_on(first), Ok("v".to_string()));
    assert_eq!(block_on(third), Ok("v".to_string()));
}

#[test]
fn settling_an_idle_key_does_nothing() {
    let mut c: Coalescer<u64, u32> = Coalescer::new();
    assert!(c.settle(&9, &1).is_empty());
    assert!(matches!(c.join(9), Joined::Leader));
}
