# plato-forge-bridge

The bridge between forge tile pipelines and Plato agent rooms, written in Verus.

A `Tile` is mapped into a `ForgeTick` (`TileToTickMapper`), agents act on ticks,
and the tile is reconstructed from a tick (`TickToTileMapper`) with the agents
that touched it stamped into its provenance. `ForgeBridge` buffers the ticks,
keeps rejected ones in a dead-letter buffer, and routes assembled tiles to the
`ForgeRoom`s whose domain filter accepts them.

Layout:

- `src/` — the verified library: `types` (tiles, ticks and their models),
  `mapper` (tile/tick mapping, provenance stamping, the clock), `room`,
  `bridge`, `ids` (UUID bits and text). Each public function states its result
  in `ensures`, except where only chance or the clock decides it: random ids
  are stated only by their version bits, and `now_ms` claims nothing of the
  time it reads (`millis_to_timestamp` states how a reading becomes the value).
  The `law_*` proof functions state what holds across functions.
- `tests/` — tests run against the compiled library.
- `app/` — serde and `thiserror` companions of the library's types, and the
  two operations on `f32` confidence scores (`with_confidence`,
  `tiles_above_confidence`).

Ids are carried as the 128 bits of their UUID, and a confidence score as the
bit pattern of its `f32`.
