# si-registry-rs

A local fleet registry client. `src/` is the verified library:

- `cache` — a key/value cache whose entries expire, viewed as a map from key to
  (value, expiry time); lookups, stores, removal and purging are specified over that
  map, with laws for read-after-write, expiry and write-out/read-back.
- `client` — the registry client's decisions: which cache entry answers a query or
  which HTTP request to make, the cache keys and URLs, the by-name lookup result and
  the per-language repo counts.
- `scan` — de-duplicated capabilities, repos providing a capability, and the rule
  that turns a scanned directory into a repo.
- `conservation` — the agents whose budget check failed.
- `text` — decimal rendering and trailing-character trimming.

`app/` holds what the library leaves to its caller: the cache file, HTTP requests,
JSON and TOML (de)serialization, directory scanning and the floating-point budget
arithmetic.
