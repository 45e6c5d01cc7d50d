# summary_migration

Verified logic of the summary pallet's `VotesRepository` storage migration,
which re-encodes stored voting sessions after the `confirmations` field was
dropped, and of the AvN validator set's rotating primary validator.

- `src/scale.rs`: SCALE integers and the compact length prefix (calls into
  parity-scale-codec behind contracts), with roundtrip lemmas.
- `src/fields.rs`: length-prefixed byte strings and lists of fixed-width items.
- `src/record.rs`: the current and the previous record layouts, their
  decoders, the encoder, and the encode/decode roundtrip.
- `src/keys.rs`: storage key prefixes (twox-128 of sp-crypto-hashing) and the
  stored storage version.
- `src/weight.rs`: database weights (sp-weights).
- `src/migration.rs`: the per-entry decision, the storage walk as a state
  machine, the checks before and after the upgrade, and their laws.
- `src/walk.rs`: the three walks run over the map's entries in key order,
  and the proof that the upgrade passes its own check.
- `src/avn.rs`: primary validator for sending and for a block, and the local
  node's validator.
- `app/lib.rs`: runs the walks against the runtime storage (sp-io).
