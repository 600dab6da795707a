//! # open-tiles
//!
//! Builds ready-to-render 3D terrain tiles (glTF binary, `.glb`) from
//! Mapzen Terrarium heightmaps and satellite imagery, at 1:1 world scale,
//! addressed by slippy-map `zoom/x/y`.
//!
//! The library decides and computes; it performs no I/O. Whoever runs it
//! reads and writes the caches, asks the providers and evaluates the exact
//! samples as floating-point numbers.
//!
//! ## Conventions
//!
//! - Right-handed, **Y-up, metres**. `+X` east, `+Z` south (slippy `y`
//!   increases southward). Origin at the tile's north-west corner; the tile
//!   spans `[0, size]` in X and Z, where `size` is the tile edge in metres at
//!   the tile's own centre latitude.
//! - Vertex **Y is metres above sea level**, unscaled. `Y = 0` is the same
//!   sea-level plane in every tile, so placing tile `(x, y)` on a uniform grid
//!   is `translation = (x·size, 0, y·size)` — X/Z only.
//! - Tile edges are watertight against same-zoom neighbours: boundary
//!   vertices are sampled over a height field padded with the neighbours'
//!   edge texels, so both sides evaluate to the same value.
//! - No skirts. LOD seams are the client's problem.
//! - Any zoom 1–22. When a provider has nothing at the requested zoom, the
//!   asset comes from the closest lower zoom that exists: heights by sampling
//!   a window of the ancestor's field, imagery by crop-and-upscale.
//!
//! ## Arithmetic
//!
//! Heights are whole 1/256ths of a metre, coordinates are fractions of a
//! texel, and a sample is its four texels with exact weights. What is stated
//! of surfaces — shared edges, ranges, distances — therefore holds exactly.

pub mod builder;
pub mod bytes;
pub mod cli;
pub mod codec;
pub mod error;
pub mod fetch;
pub mod fingerprint;
pub mod glb;
pub mod imagery;
pub mod json;
pub mod mesh;
pub mod metadata;
pub mod normals;
pub mod provider;
pub mod scan;
pub mod server;
pub mod store;
pub mod terrain;
pub mod text;
pub mod tile;

pub use builder::{build_tile, load_inputs, Config, TileInputs};
pub use error::Error;
pub use provider::Provider;
pub use store::Store;
pub use tile::{TileId, MAX_ZOOM, MIN_ZOOM};
