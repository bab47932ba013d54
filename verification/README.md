# bal_server

The verified core of the Bitcoin After Life will executor: a server that
stores pre-signed Bitcoin transactions with a future lock time, and a block
watcher that broadcasts them once the lock time has passed.

The library (`src/`) is written in Verus; every function carries a contract
that Verus proves.

- `text` — character and byte helpers: searching, splitting, decimal and hex
  text, the parsing rules of Rust's integer `from_str`.
- `network` — the five Bitcoin networks and their names.
- `xpub` — the Bitcoin Core descriptor checksum, base58check, SLIP-132
  prefix conversion, key fingerprints, descriptors and receive-address
  derivation (calls into `bs58`, `sha2` and `bitcoin`).
- `validation` — the WELIST report URL check (calls into `url`).
- `server` — request gates, the decoding of submitted transactions (calls
  into `hex-conservative` and `bitcoin`) and the statements that store them.
- `db` — database path checks and the duplicate query.
- `umbrel_api` — the dashboard: query strings, the transaction list query,
  settings updates, backup paths and listings, logo uploads.
- `pusher` — the block watcher: which transactions are due, ZMQ connection
  health, miner fees, statistics and status statements, weekly backups,
  signed reports (calls into `hex`, `openssl` and `base64`).

Calls into outside crates sit behind `#[verifier::external_body]` wrappers
whose contracts say what the crate's code does; everything around them is
proved.

`app/` holds the two programs around the library (`bal-server` and
`bal-pusher`, chosen by the executable's name): HTTP handlers, SQLite,
ZMQ and RPC, configuration from the environment, and the JSON forms of the
library's types. `tests/` exercises the library with the real outside crates.
