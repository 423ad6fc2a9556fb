# join_proxy

A caching HTTP proxy for canister outcalls, with an OAuth endpoint whose
callers log in with Internet Identity. Identical requests are answered from
a cache; a shared key, a callback to the calling canister and per-user
server setups decide who may use the proxy and how requests and responses
are edited.

## Layout

- `src/` — the verified library (Verus):
  - `flow.rs`: the course of one proxied request as a machine that decides
    and asks the caller for outside work (cache, callback, database,
    upstream);
  - `forwarding.rs`: the shared-key check, routing, request and response
    header edits, server-setup ownership, the cache key;
  - `framing.rs`: how requests are framed for hashing and responses for the
    cache, and how cached responses are read back;
  - `cache.rs`: the cache of framed responses, each served for the
    configured time;
  - `challenge.rs`, `identity.rs`, `signature.rs`, `sec1.rs`, `hash_tree.rs`:
    Internet Identity logins (challenges, delegation chains, signatures);
  - `oauth.rs`: the decisions of the OAuth endpoints;
  - `config.rs`: configuration, defaults, durations, command-line overrides;
  - `crypto.rs`, `encoding.rs`, `ic.rs`, `platform.rs`, `text.rs`, `bytes.rs`:
    the calls into outside crates and small helpers.
- `app/` — the servers: command line and configuration file, the actix-web
  endpoints, the database.
- `tests/` — tests of the library on concrete values.

The proxy reads the database URL from `DATABASE_URL` and the root key that
delegation chains start from (hexadecimal DER) from `IC_ROOT_KEY`.

In the configuration file, `upstream_prefix` (if given) replaces the domain
of the `Host` header for requests without a server setup, and
`upstream_headers` (a table of names and values) are added to every such
upstream request.
