# open-tiles

3D terrain tiles as GLB, at 1:1 world scale, addressed like a slippy map (`zoom/x/y`): built from
Terrarium heightmaps, normal maps and satellite imagery, cached, and served over HTTP.

The library under `src/` is written in Verus. It decides and computes: addressing, decoding,
padding and sampling of height fields, meshes, the GLB container, the walk to the closest zoom a
provider serves, cache keys and markers, metadata, fingerprints, and what the server and the
command line answer. It performs no I/O and uses no floating point: heights are whole 1/256ths of a
metre and samples carry exact weights, so that what is stated of shared edges, ranges and distances
holds exactly.

| module | what it holds |
|---|---|
| `tile`, `provider`, `text`, `bytes`, `error` | addresses, URL templates, characters, little-endian words, errors |
| `terrain`, `mesh`, `normals` | height fields and their windows, vertex grids, normals |
| `codec`, `imagery` | the `image` crate, and imagery as JPEG |
| `json`, `glb` | `serde_json`, and the GLB container |
| `fetch`, `builder` | one fetch, the walk-down, a tile from its inputs |
| `metadata`, `scan` | height range and geometric error, the scan that backfills documents |
| `store`, `fingerprint`, `server`, `cli` | cache addressing, configuration hash, replies, commands |

Every function states what it returns in `requires` and `ensures`; the functions named `law_…` state
what holds across functions — watertight edges, containers that read back, caches that remember.
Calls into other crates go through small wrappers whose contracts say what is relied on.

`app/` is the program around the library: files, S3, HTTP, threads, and the evaluation of samples as
32-bit floats. `tests/` runs the library with the real codecs.
