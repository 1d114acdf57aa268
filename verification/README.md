# quanta-realtime-server

The decision logic of a realtime game server, written in Verus and verified: each
island's fixed-timestep tick engine (timers, fault quarantine, checkpoints), the
island manager's lifecycle and player bookkeeping, zone transfers with signed
tokens, reconnect sessions, bridge request/reply and batching, and the binary
wire formats (delta datagrams, checkpoints, initial state sync, WebSocket frames).

Layout:

- `src/` — the verified library. Public functions state their results in
  `ensures`, over the outcomes of the clock, the random source and the game's
  entity handlers where those decide; properties that relate several calls are
  public `law_*` proof functions next to the code they speak of. Calls into
  `bitcode`, `hmac`, `sha2`, `getrandom` and the clock go through small trusted
  wrappers whose contracts are their documented behaviour. The zone-transfer
  token carries `f32` positions, so its bitcode forms are made in `app/`; the
  library signs and checks those bytes.
  The server's maps are vectors with a no-duplicate-key invariant: vstd gives
  `HashMap` a contract only for hashers it knows to be valid (std's `RandomState`, not
  rustc-hash's `FxBuildHasher`) and for keys it knows to hash and compare faithfully
  (integers, not the `(EntitySlot, String)` keys of the timers), so nothing could be
  proved of those maps as hash maps.
- `tests/` — tests that run the library with the real outside crates linked.
- `app/` — the server process around the library: threads and channels, file
  I/O, serde types, and the float-valued parts (spatial grid, interest priority,
  pacing, CPU thresholds).
