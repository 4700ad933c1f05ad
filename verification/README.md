# etcd_store

A key-value store on top of etcd whose decisions are verified with Verus.

`src/` is the verified library. It talks to no server: it decides which requests to make, reads
the replies, and says when to go on, to try again or to stop.

- `etcd.rs`: the operations `get`, `put`, `delete`, `count`, `stats`, and the start of the longer
  ones.
- `listing.rs`: reading everything under a prefix, page by page.
- `watch.rs`: following the changes under a prefix.
- `lock.rs`: a lock that is held in the store.
- `keepalive.rs`: the upkeep of the connection and of leases.
- `connect.rs`, `config.rs`: how the servers are reached.
- `text.rs`, `request.rs`, `error.rs`: texts, requests and errors.
- `store.rs`: what the store is taken to do; only proofs use it.
- `laws/`: what holds of the library as a whole, such as that a listing finds every key under its
  prefix once and in order.
- `outside.rs`: what is taken from `bytes`, `ahash` and std. The contracts in this file are
  trusted.

`app/` sends the requests with `etcd-client` and runs the library in tokio tasks.
