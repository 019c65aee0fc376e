# orderbook

A limit order book with price-time priority, written in Verus.

- `src/` is the verified library: the order types and their ranking, the book
  and its matching engine, the snapshot diffs sent to websocket clients, the
  heartbeat decision and the session registry.
- `app/` is the server around it: an actix-web HTTP endpoint that takes
  transactions as JSON, a thread that feeds them into the book, and websocket
  actors that push book changes to clients.
- `tests/` runs the library on concrete books and snapshots.
