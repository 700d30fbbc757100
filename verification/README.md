# rust_iso20022

ISO 20022 (MX) message identification, catalogue lookup and model-free
readers, verified with Verus.

- `src/` is the verified library: message identifiers (`MxId`, `BusinessArea`),
  message-type detection, the Business Application Header reader and writer,
  business metadata extraction, the generic `MxNode` tree, the catalogue and
  its command-line lookup, the pure part of the schema fetcher, typed scalar
  conversions and the JSON forms used by JavaScript callers. Each public
  function carries a contract over a mathematical model of its inputs, and
  the laws relating functions (read-back of a written header, identifier
  round trips, catalogue consistency, tree navigation) are proof functions.
- `app/` holds what cannot be verified: the yaserde/serde codecs over
  generated message types, serde forms of the library types, HTTP downloads,
  the `iso20022` command-line table and the wasm-bindgen exports.
- `tests/` exercises the library on concrete values.

The message catalogue in `src/catalogue.rs` lists a representative set of
message versions; a full table generated from the XSD schemas drops in with
the same interface.
