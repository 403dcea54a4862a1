# doh-edge

A DNS-over-HTTPS proxy for Cloudflare Workers with two cache tiers, whose logic
is verified with Verus.

- `src/` is the verified library.
  - `dns` reads DNS messages: the transaction id, the question, the TTL fields of
    the answers. `dns_laws` states what holds of messages as they are cached,
    aged and served.
  - `edge` is the first tier: what is made of a client's request, what a hit
    answers, what is kept after a miss.
  - `resolver` is the second tier: one object for a region, with a cache and one
    fetch at a time for each question, by way of `coalesce`.
  - `http` holds requests and responses as plain values.
  - `metrics` and `stats` name what is counted and draw the page of statistics.
  - `text` writes numbers and columns.
- `tests/` runs the library, with the outside crates that it calls.
- `app/` is the worker itself: it performs the requests that the library asks
  for, and holds the arithmetic on floating-point numbers.

A reply is kept for the least TTL of its answers, or 60 seconds where it has none
or says that the name does not exist.
