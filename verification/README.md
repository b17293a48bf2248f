# safe_api

Client tools for the SAFE Network, with their logic verified by Verus: the
functions in `src/` carry `requires` / `ensures` contracts that Verus proves. The
few calls into outside crates (multibase, hashing, BLS keys, coin amounts, path
and URL helpers, the clock and random numbers) stand behind small trusted
wrappers whose contracts restate the crates' sources; those that read the clock
or a random source promise nothing of their result.

## Layout

- `src/` — the verified library
  - `xorurl` — XOR-URLs: encoding of content addresses, multibase rendering and
    reading back (a URL rendered in base32z or base32 reads back as its fields),
    and `?v=` content versions
  - `nrs` — NRS maps: public names, sub names, default links and resolution
  - `files` — files maps: building them from local files and synchronising them
    with a local folder (a state machine whose steps are decided by the library)
  - `fake_scl` — the in-memory vault: coin balances, transfers, immutable data,
    sequenced append-only and mutable data
  - `safe` — the API over the vault: keys and transfers, sequences, immutable data
  - `containers` — files containers and NRS map containers in the vault
  - `coins` — amounts of safecoins: their text and its reading
  - `bls` — BLS key pairs as bytes
  - `authd`, `notifs` — the authenticator daemon's errors, requests and
    notification decisions
  - `node`, `config`, `cli`, `helpers`, `entropy` — the command line's decisions
  - `text`, `table`, `error` — strings, association tables and the error type
- `tests/` — tests of the library, run against the real outside crates
- `app/` — the `safe` command-line tool: argument parsing, the terminal, the file
  system, the persisted vault, processes and floating point, around the library
