# stratum

World orchestration for large streamed 3D worlds: levels of entities laid out
on a grid partition, cameras for editor and game modes, the order in which
camera views are drawn, chunk streaming bookkeeping, the on-disk layout of
levels, prefab templates and asset reference counting.

## Layout

- `src/` — the library, verified with Verus. Real numbers (positions, radii,
  colours) are carried as `f32` bit patterns and never computed with; every
  decision that depends only on integers, identifiers, states and sets is
  made and proved here.
- `tests/` — tests of the library on concrete values.
- `app/` — the runtime around the library: camera and frustum geometry,
  distance-based streaming verdicts, JSON records and file I/O, the
  background streaming thread, the async chunk loader and prefab placement.
