# vinox

The world logic of a voxel game, written in Verus and verified.

- `src/` is the library. Chunks hold a palette of block state names and one palette index
  per voxel of a padded 34³ cube (`chunk`, `palette`); chunks are meshed into quads with
  ambient occlusion (`meshing`, `block_mesh`, `example`); the padding of a chunk is filled
  from its six neighbours (`borders`); terrain is filled and grassed from solid and cave
  masks (`generation`); the world keeps track of chunks around players, which to load,
  send, remesh or drop (`world`); clicks change blocks (`input`); chunk data is framed,
  compressed with zstd and routed to network channels (`network`); a client keeps its record of players and
  entity snapshots in step with the server (`sync`); block and entity
  definitions become block tables (`storage`, `voxel`).
- `app/` is a headless world server around the library: it reads RON definition files,
  evaluates the terrain noise, stores chunks in SQLite and serializes data with serde; its
  `client` module applies what the server sends to a client's world.
- `tests/` exercise the library on concrete values.
