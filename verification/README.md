# tab5_stock_backend

A quote relay for M5Stack Tab5 stock terminals: it takes A-share and Hong
Kong quotes from a mock generator or the Longbridge feed and serves them to
devices over HTTP and WebSocket, with an admin API for the watchlist.

- `src/` is the verified library (Verus):
  - `text`, `number`, `order`: string handling over character sequences,
    decimal `u64` reading, and the symbol order;
  - `config`: provider kinds, watch items, `WATCHLIST` parsing, symbol
    normalisation and the environment settings;
  - `models`: markets, quote statuses, timestamps, quotes and their
    freshness, and the listing types served to clients;
  - `sorting`: the stable symbol order of watchlists;
  - `store`: the quote store (latest quote per watched symbol, watchlist
    edits, snapshots, health) and its laws;
  - `stream`: what the server does on each event of a device's WebSocket
    session;
  - `access`, `supervisor`, `providers`, `error`, `clock`: request access,
    provider restarts, provider runs, quote assembly and quote details,
    errors and the wall clock.
- `app/` is the server around it: configuration from the environment,
  locking and broadcasting, watchlist persistence, the Axum routes and
  WebSocket stream, and the provider tasks.
- `tests/` exercises the library.
