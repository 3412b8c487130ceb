# hns_browser

The networking core of a browser for Handshake names: an authenticated loopback
HTTP proxy, the peer protocol with DNS relaying, and the browser's status.

- `src/` is the library. Everything it computes and decides is specified and proved
  with Verus; what it takes from other crates stands behind items whose contracts are
  trusted.
- `tests/` runs the library, with the other crates linked.
- `app/` is ordinary Rust around it: sockets, threads, TLS sessions and the database.

The proxy: `http1`, `target`, `body`, `forward` and `response` read and write HTTP/1;
`auth`, `host` and `routing` decide who is served for which host; `connect`,
`exchange`, `tunnel` and `tls` are the steps of a connection; `certificate` and
`issuing` hold the local identities; `lifecycle` starts and stops a generation; `event`,
`metadata` and `reply` are what observers and clients are told.

The peers: `wire`, `packet` and `frame` are the format; `sync` is the session;
`peers`, `selection`, `seeds` and `store` keep, rank, find and store peers; `relay` and
`relay_client` ask peers for DNS.

The status: `policy` and `status`.
