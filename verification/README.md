# AWDL frame decoding, verified

A Verus library that decodes Apple Wireless Direct Link action frames.

- `src/le.rs` — bounds-checked little-endian reads.
- `src/action.rs` — recognising an AWDL action frame and its fixed header.
- `src/tlv.rs` — walking the tagged region, and how the walk ends.
- `src/election.rs` — Election Parameters v1 and v2, and the (counter, metric,
  address) ordering that decides an election, with its order laws.
- `src/sync.rs` — Synchronization Parameters and Channel Sequence, slot occupancy,
  and the laws relating `occupied_slots`, `slots_on` and `distinct`.

Every decoder's contract states exactly when it succeeds and what each field holds,
over the byte sequence it was given. `tests/` exercises the decoders on concrete frames.
