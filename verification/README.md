# rootmode desktop

The logic of a desktop client for peer-to-peer inference, as a verified library:
which peer gets a job and who comes next, what counts as an answer, what is
locked and signed for, what is kept on disk, how other programs are answered by
the local endpoint, and how their settings are changed and put back.

- `src/` is the library. Every function in it carries a contract that Verus
  proves. The `law_…` functions state what holds across functions.
- `src/store/` holds the tables, `src/pot/` the wallet, `src/gateway/` the local
  endpoint, `src/connected_tools/` the settings files of other tools.
- `app/` is what surrounds the library: the database file, sockets, HTTP, the
  chain's nodes, files. Protocol frames, identities, token counts, the network
  node and the window come in through the traits of `app/core.rs`.
- `tests/` runs the library on concrete values.

Calls into other crates stand behind small functions marked `external_body`:
`serde_json` for JSON text, `hex`, `base64` and `sha2` for encodings and hashes,
`k256` for signatures, `png` for pictures, `url` for socket addresses, `uuid` for
ids, `rand` for drawn numbers. What each is trusted for is written above it.

Amounts are in millionths of a dollar, listed prices in cents. Single-precision
numbers travel as their bit patterns.
