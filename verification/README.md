# blueboat

The verified core of the Blueboat serverless runtime: the logic behind its
host APIs, with each function's behaviour stated as a Verus contract and
proved.

- `src/` is the library. Every module is checked by Verus:
  - `cache` — the generational cache (fresh, young and old generations,
    promotion on read, sweeps) and its laws.
  - `kv`, `kvutil`, `keycodec`, `mds`, `mds_config`, `shards` — key-value
    requests, the compare-and-set transaction as a state machine, key path
    encoding, and the metadata service's requests, answers, retries and shard
    table.
  - `codec`, `crypto`, `markdown`, `pubsub`, `logsvc` — codecs, the crypto
    API over `ring`, `blake3`, `md-5`, `hmac`, `aes-gcm-siv` and the dalek
    crates, Markdown rendering, pub/sub checks and log configuration.
  - `font`, `fontrule`, `fontmatch`, `layout` — font rules, font selection and
    layout expressions of the graphics API.
  - `mysql`, `timestamp`, `metadata`, `ipc`, `dom`, `aws`, `lpch`, `text` —
    value conversions and calendar dates, application metadata, request and
    response shapes, DOM filters and the filtered walk over a document,
    request signing helpers and text utilities.
- `tests/` exercises the library on concrete values.
- `app/` holds what the library leaves to its caller: locking and the
  asynchronous sweep of the cache, and floating-point font sizes and weights.
