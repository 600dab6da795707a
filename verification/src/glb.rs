//! GLB (glTF 2.0 binary) writer for one terrain tile: a single buffer holding
//! positions, UVs, normals, indices and the JPEG, one mesh, one textured
//! material, one node at identity, and tile metadata in the root `extras`.

use crate::bytes;
use crate::json;
use crate::json::Tree;
use crate::mesh::Grid;
use crate::tile::TileId;
use vstd::prelude::*;

verus! {

/// GLB container magic: the ASCII bytes "glTF" read as a little-endian u32.
pub const GLB_MAGIC: u32 = 0x4654_6C67;

/// Chunk-type tag of the (first, mandatory) JSON chunk: "JSON".
pub const CHUNK_JSON: u32 = 0x4E4F_534A;

/// Chunk-type tag of the binary chunk: "BIN\0".
pub const CHUNK_BIN: u32 = 0x004E_4942;

/// `componentType`: 32-bit IEEE float (positions, UVs).
pub const FLOAT: u32 = 5126;

/// `componentType`: 16-bit index — used whenever the vertex count fits.
pub const UNSIGNED_SHORT: u32 = 5123;

/// `componentType`: 32-bit index — only the 257-vertex grids need it.
pub const UNSIGNED_INT: u32 = 5125;

/// bufferView `target` for vertex attributes.
pub const ARRAY_BUFFER: u32 = 34962;

/// bufferView `target` for triangle indices.
pub const ELEMENT_ARRAY_BUFFER: u32 = 34963;

/// Sampler magnification filter: bilinear.
pub const LINEAR: u32 = 9729;

/// Sampler minification filter: trilinear (interpolated mipmaps).
pub const LINEAR_MIPMAP_LINEAR: u32 = 9987;

/// Wrap mode: edge texels extend past 0/1, so a tile's border never bleeds
/// in the opposite edge of its own texture.
pub const CLAMP_TO_EDGE: u32 = 33071;

/// Where a tile's normals came from — recorded in the `extras` and deciding
/// whether the mesh carries a NORMAL attribute at all.
#[derive(Clone, Copy, Debug, PartialEq, Eq, Structural)]
pub enum NormalsOrigin {
    /// Normals disabled: no NORMAL attribute, no `extras` entry.
    Omitted,
    /// Synthesized from the height field (`extras.normals_source_zoom` is
    /// `null`).
    Heights,
    /// The provider's normal tile at this zoom.
    Provider(u8),
}

/// The vertex arrays of a grid as they are stored, and the range of the
/// positions. Components are the bit patterns of 32-bit floats.
pub struct VertexBuffers {
    /// `x, y, z` metres a vertex.
    pub positions: Vec<u32>,
    /// `u, v` in `[0, 1]` a vertex.
    pub uvs: Vec<u32>,
    /// `x, y, z` unit vector a vertex; empty when the mesh has none.
    pub normals: Vec<u32>,
    /// Per-axis minimum of `positions` (glTF requires it on POSITION).
    pub min: [Option<serde_json::Number>; 3],
    /// Per-axis maximum of `positions`.
    pub max: [Option<serde_json::Number>; 3],
}

impl VertexBuffers {
    /// The arrays hold `n` vertices each, the normals as many or none.
    pub open spec fn holds(self, n: nat) -> bool {
        &&& self.positions@.len() == 3 * n
        &&& self.uvs@.len() == 2 * n
        &&& self.normals@.len() == 3 * n || self.normals@.len() == 0
    }
}

/// Metadata recorded in the GLB root `extras` so a consumer can place and
/// attribute the tile without out-of-band knowledge.
#[derive(Clone, Debug)]
pub struct TileMeta {
    /// The tile.
    pub tile: TileId,
    /// Edge length in metres (at the tile's centre latitude).
    pub tile_size_m: Option<serde_json::Number>,
    /// Northern edge latitude, degrees.
    pub north: Option<serde_json::Number>,
    /// Southern edge latitude, degrees.
    pub south: Option<serde_json::Number>,
    /// Western edge longitude, degrees.
    pub west: Option<serde_json::Number>,
    /// Eastern edge longitude, degrees.
    pub east: Option<serde_json::Number>,
    /// Vertices per edge actually used.
    pub resolution: u32,
    /// The configured resolution when the useful ceiling clamped it.
    pub resolution_requested: Option<u32>,
    /// Zoom the heightmap was taken from (`== tile.zoom` when served directly).
    pub terrain_source_zoom: u8,
    /// Zoom the imagery was taken from (`== tile.zoom` when served directly).
    pub imagery_source_zoom: u8,
    /// Where the normals came from (provider zoom, heights, or omitted).
    pub normals: NormalsOrigin,
    /// Imagery attribution.
    pub imagery_attribution: String,
    /// Elevation attribution.
    pub elevation_attribution: String,
}

/// A [`TileMeta`] with its strings as character sequences.
pub struct MetaView {
    /// See [`TileMeta::tile`].
    pub tile: TileId,
    /// See [`TileMeta::tile_size_m`].
    pub tile_size_m: Option<serde_json::Number>,
    /// See [`TileMeta::north`].
    pub north: Option<serde_json::Number>,
    /// See [`TileMeta::south`].
    pub south: Option<serde_json::Number>,
    /// See [`TileMeta::west`].
    pub west: Option<serde_json::Number>,
    /// See [`TileMeta::east`].
    pub east: Option<serde_json::Number>,
    /// See [`TileMeta::resolution`].
    pub resolution: u32,
    /// See [`TileMeta::resolution_requested`].
    pub resolution_requested: Option<u32>,
    /// See [`TileMeta::terrain_source_zoom`].
    pub terrain_source_zoom: u8,
    /// See [`TileMeta::imagery_source_zoom`].
    pub imagery_source_zoom: u8,
    /// See [`TileMeta::normals`].
    pub normals: NormalsOrigin,
    /// See [`TileMeta::imagery_attribution`].
    pub imagery_attribution: Seq<char>,
    /// See [`TileMeta::elevation_attribution`].
    pub elevation_attribution: Seq<char>,
}

impl View for TileMeta {
    type V = MetaView;

    open spec fn view(&self) -> MetaView {
        MetaView {
            tile: self.tile,
            tile_size_m: self.tile_size_m,
            north: self.north,
            south: self.south,
            west: self.west,
            east: self.east,
            resolution: self.resolution,
            resolution_requested: self.resolution_requested,
            terrain_source_zoom: self.terrain_source_zoom,
            imagery_source_zoom: self.imagery_source_zoom,
            normals: self.normals,
            imagery_attribution: self.imagery_attribution@,
            elevation_attribution: self.elevation_attribution@,
        }
    }
}

// -- the document ------------------------------------------------------------------

/// A bufferView of `len` bytes at `offset`.
pub open spec fn view_tree(
    offset: nat,
    len: nat,
    target: Option<u32>,
    stride: Option<u32>,
) -> Tree {
    let base = map![
        "buffer"@ => json::whole(0),
        "byteOffset"@ => json::whole(offset),
        "byteLength"@ => json::whole(len),
    ];
    let with_target = match target {
        Some(t) => base.insert("target"@, json::whole(t as nat)),
        None => base,
    };
    Tree::Object(
        match stride {
            Some(s) => with_target.insert("byteStride"@, json::whole(s as nat)),
            None => with_target,
        },
    )
}

/// An accessor over a bufferView.
pub open spec fn accessor_tree(view: nat, component: u32, count: nat, kind: Seq<char>) -> Tree {
    Tree::Object(
        map![
            "bufferView"@ => json::whole(view),
            "componentType"@ => json::whole(component as nat),
            "count"@ => json::whole(count),
            "type"@ => Tree::Text(kind),
        ],
    )
}

/// Three numbers.
pub open spec fn triple_tree(v: [Option<serde_json::Number>; 3]) -> Tree {
    Tree::List(seq![json::optional(v@[0]), json::optional(v@[1]), json::optional(v@[2])])
}

/// The accessor of the positions, which carries their range.
pub open spec fn position_tree(b: VertexBuffers, count: nat) -> Tree {
    Tree::Object(
        map![
            "bufferView"@ => json::whole(0),
            "componentType"@ => json::whole(FLOAT as nat),
            "count"@ => json::whole(count),
            "type"@ => Tree::Text("VEC3"@),
            "min"@ => triple_tree(b.min),
            "max"@ => triple_tree(b.max),
        ],
    )
}

/// The accessors: positions, UVs, normals where there are any, indices.
pub open spec fn accessors_tree(b: VertexBuffers, count: nat, indices: nat) -> Seq<Tree> {
    let component = if count <= 65536 {
        UNSIGNED_SHORT
    } else {
        UNSIGNED_INT
    };
    let first = seq![position_tree(b, count), accessor_tree(1, FLOAT, count, "VEC2"@)];
    if b.normals@.len() > 0 {
        first.push(accessor_tree(2, FLOAT, count, "VEC3"@)).push(
            accessor_tree(3, component, indices, "SCALAR"@),
        )
    } else {
        first.push(accessor_tree(2, component, indices, "SCALAR"@))
    }
}

/// The attributes of the one primitive, by accessor.
pub open spec fn attributes_tree(has_normals: bool) -> Tree {
    let base = map!["POSITION"@ => json::whole(0), "TEXCOORD_0"@ => json::whole(1)];
    Tree::Object(
        if has_normals {
            base.insert("NORMAL"@, json::whole(2))
        } else {
            base
        },
    )
}

/// The one mesh.
pub open spec fn mesh_tree(tile: TileId, has_normals: bool) -> Tree {
    let indices: nat = if has_normals {
        3
    } else {
        2
    };
    let primitive = Tree::Object(
        map![
            "attributes"@ => attributes_tree(has_normals),
            "indices"@ => json::whole(indices),
            "material"@ => json::whole(0),
            "mode"@ => json::whole(4),
        ],
    );
    Tree::Object(
        map![
            "name"@ => Tree::Text(tile.text()),
            "primitives"@ => Tree::List(seq![primitive]),
        ],
    )
}

/// The one texture sampler.
pub open spec fn sampler_tree() -> Tree {
    Tree::Object(
        map![
            "magFilter"@ => json::whole(LINEAR as nat),
            "minFilter"@ => json::whole(LINEAR_MIPMAP_LINEAR as nat),
            "wrapS"@ => json::whole(CLAMP_TO_EDGE as nat),
            "wrapT"@ => json::whole(CLAMP_TO_EDGE as nat),
        ],
    )
}

/// The one material: the imagery, neither metallic nor shiny.
pub open spec fn material_tree() -> Tree {
    let pbr = Tree::Object(
        map![
            "baseColorTexture"@ => Tree::Object(map!["index"@ => json::whole(0)]),
            "metallicFactor"@ => json::optional(json::number_of("0.0"@)),
            "roughnessFactor"@ => json::optional(json::number_of("1.0"@)),
        ],
    );
    Tree::Object(map!["name"@ => Tree::Text("terrain"@), "pbrMetallicRoughness"@ => pbr])
}

/// Everything in `extras` but the normals' source.
pub open spec fn extras_base(meta: MetaView) -> Map<Seq<char>, Tree> {
    map![
        "zoom"@ => json::whole(meta.tile.zoom as nat),
        "x"@ => json::whole(meta.tile.x as nat),
        "y"@ => json::whole(meta.tile.y as nat),
        "tile_size_m"@ => json::optional(meta.tile_size_m),
        "bounds"@ => Tree::Object(
            map![
                "north"@ => json::optional(meta.north),
                "south"@ => json::optional(meta.south),
                "west"@ => json::optional(meta.west),
                "east"@ => json::optional(meta.east),
            ],
        ),
        "resolution"@ => json::whole(meta.resolution as nat),
        "resolution_requested"@ => json::optional_uint(meta.resolution_requested),
        "terrain_source_zoom"@ => json::whole(meta.terrain_source_zoom as nat),
        "imagery_source_zoom"@ => json::whole(meta.imagery_source_zoom as nat),
        "units"@ => Tree::Text("metres"@),
        "up"@ => Tree::Text("+Y"@),
        "origin"@ => Tree::Text(
            "north-west corner; +X east, +Z south; Y is metres above sea level"@,
        ),
        "sources"@ => Tree::Object(
            map![
                "imagery"@ => Tree::Text(meta.imagery_attribution),
                "elevation"@ => Tree::Text(meta.elevation_attribution),
            ],
        ),
    ]
}

/// The root `extras`.
pub open spec fn extras_tree(meta: MetaView) -> Tree {
    let base = extras_base(meta);
    Tree::Object(
        match meta.normals {
            NormalsOrigin::Omitted => base,
            NormalsOrigin::Heights => base.insert("normals_source_zoom"@, Tree::Null),
            NormalsOrigin::Provider(z) => base.insert(
                "normals_source_zoom"@,
                json::whole(z as nat),
            ),
        },
    )
}

/// Neither the other attributes nor the other `extras` have the names that
/// tell of normals.
pub proof fn lemma_normal_names()
    ensures
        !attributes_tree(false)->Object_0.dom().contains("NORMAL"@),
        forall|meta: MetaView|
            !(#[trigger] extras_base(meta)).dom().contains("normals_source_zoom"@),
{
    reveal_strlit("NORMAL");
    reveal_strlit("POSITION");
    reveal_strlit("TEXCOORD_0");
    reveal_strlit("normals_source_zoom");
    reveal_strlit("zoom");
    reveal_strlit("x");
    reveal_strlit("y");
    reveal_strlit("tile_size_m");
    reveal_strlit("bounds");
    reveal_strlit("resolution");
    reveal_strlit("resolution_requested");
    reveal_strlit("terrain_source_zoom");
    reveal_strlit("imagery_source_zoom");
    reveal_strlit("units");
    reveal_strlit("up");
    reveal_strlit("origin");
    reveal_strlit("sources");
    assert("NORMAL"@.len() == 6 && "POSITION"@.len() == 8 && "TEXCOORD_0"@.len() == 10);
    assert("normals_source_zoom"@[0] == 'n');
    assert("terrain_source_zoom"@[0] == 't');
    assert("imagery_source_zoom"@[0] == 'i');
}

/// The glTF document.
pub open spec fn document_tree(
    bin_len: nat,
    views: Seq<Tree>,
    accessors: Seq<Tree>,
    has_normals: bool,
    meta: MetaView,
) -> Tree {
    let image_view: nat = if has_normals {
        4
    } else {
        3
    };
    Tree::Object(
        map![
            "asset"@ => Tree::Object(
                map![
                    "version"@ => Tree::Text("2.0"@),
                    "generator"@ => Tree::Text("open-tiles 0.1.0"@),
                ],
            ),
            "buffers"@ => Tree::List(
                seq![Tree::Object(map!["byteLength"@ => json::whole(bin_len)])],
            ),
            "bufferViews"@ => Tree::List(views),
            "accessors"@ => Tree::List(accessors),
            "images"@ => Tree::List(
                seq![
                    Tree::Object(
                        map![
                            "bufferView"@ => json::whole(image_view),
                            "mimeType"@ => Tree::Text("image/jpeg"@),
                        ],
                    ),
                ],
            ),
            "samplers"@ => Tree::List(seq![sampler_tree()]),
            "textures"@ => Tree::List(
                seq![
                    Tree::Object(
                        map!["sampler"@ => json::whole(0), "source"@ => json::whole(0)],
                    ),
                ],
            ),
            "materials"@ => Tree::List(seq![material_tree()]),
            "meshes"@ => Tree::List(seq![mesh_tree(meta.tile, has_normals)]),
            "nodes"@ => Tree::List(
                seq![
                    Tree::Object(
                        map!["name"@ => Tree::Text(meta.tile.text()), "mesh"@ => json::whole(0)],
                    ),
                ],
            ),
            "scenes"@ => Tree::List(
                seq![Tree::Object(map!["nodes"@ => Tree::List(seq![json::whole(0)])])],
            ),
            "scene"@ => json::whole(0),
            "extras"@ => extras_tree(meta),
        ],
    )
}

// -- the binary chunk --------------------------------------------------------------

/// `chunk` behind `bin`, at the next offset that is a multiple of four.
pub open spec fn placed(bin: Seq<u8>, chunk: Seq<u8>) -> Seq<u8> {
    bytes::padded4(bin, 0) + chunk
}

/// The index bytes: 16 bits each when the vertices number at most 65536.
pub open spec fn index_bytes(indices: Seq<u32>, count: nat) -> Seq<u8> {
    if count <= 65536 {
        bytes::le16_words(indices)
    } else {
        bytes::le32_words(indices)
    }
}

/// The buffer up to the UVs.
pub open spec fn bin_uvs(b: VertexBuffers) -> Seq<u8> {
    placed(placed(Seq::empty(), bytes::le32_words(b.positions@)), bytes::le32_words(b.uvs@))
}

/// The buffer up to the normals.
pub open spec fn bin_normals(b: VertexBuffers) -> Seq<u8> {
    if b.normals@.len() > 0 {
        placed(bin_uvs(b), bytes::le32_words(b.normals@))
    } else {
        bin_uvs(b)
    }
}

/// The buffer up to the indices.
pub open spec fn bin_indices(b: VertexBuffers, indices: Seq<u32>, count: nat) -> Seq<u8> {
    placed(bin_normals(b), index_bytes(indices, count))
}

/// The whole buffer: positions, UVs, normals where there are any, indices,
/// the JPEG, each at an offset that is a multiple of four.
pub open spec fn bin_spec(
    b: VertexBuffers,
    indices: Seq<u32>,
    count: nat,
    jpeg: Seq<u8>,
) -> Seq<u8> {
    bytes::padded4(placed(bin_indices(b, indices, count), jpeg), 0)
}

/// The bufferViews of that buffer.
pub open spec fn views_spec(
    b: VertexBuffers,
    indices: Seq<u32>,
    count: nat,
    jpeg: Seq<u8>,
) -> Seq<Tree> {
    let positions = bytes::le32_words(b.positions@);
    let uvs = bytes::le32_words(b.uvs@);
    let normals = bytes::le32_words(b.normals@);
    let first = seq![
        view_tree(0, positions.len(), Some(ARRAY_BUFFER), Some(12)),
        view_tree(
            bytes::padded4(placed(Seq::empty(), positions), 0).len(),
            uvs.len(),
            Some(ARRAY_BUFFER),
            Some(8),
        ),
    ];
    let second = if b.normals@.len() > 0 {
        first.push(
            view_tree(
                bytes::padded4(bin_uvs(b), 0).len(),
                normals.len(),
                Some(ARRAY_BUFFER),
                Some(12),
            ),
        )
    } else {
        first
    };
    second.push(
        view_tree(
            bytes::padded4(bin_normals(b), 0).len(),
            index_bytes(indices, count).len(),
            Some(ELEMENT_ARRAY_BUFFER),
            None,
        ),
    ).push(
        view_tree(
            bytes::padded4(bin_indices(b, indices, count), 0).len(),
            jpeg.len(),
            None,
            None,
        ),
    )
}

/// The glTF document of a tile.
pub open spec fn tile_document(grid: Grid, b: VertexBuffers, jpeg: Seq<u8>, meta: MetaView) -> Tree {
    let count = grid.vertices@.len();
    let bin = bin_spec(b, grid.indices@, count, jpeg);
    document_tree(
        bin.len(),
        views_spec(b, grid.indices@, count, jpeg),
        accessors_tree(b, count, grid.indices@.len()),
        b.normals@.len() > 0,
        meta,
    )
}

/// The JSON text of a tile.
#[verifier::opaque]
pub open spec fn json_document(
    grid: Grid,
    b: VertexBuffers,
    jpeg: Seq<u8>,
    meta: MetaView,
) -> Seq<u8> {
    json::json_text(tile_document(grid, b, jpeg, meta))
}

/// The JSON chunk of a tile: its text, completed with spaces.
pub open spec fn glb_json(grid: Grid, b: VertexBuffers, jpeg: Seq<u8>, meta: MetaView) -> Seq<u8> {
    bytes::padded4(json_document(grid, b, jpeg, meta), 0x20)
}

/// A GLB container with a JSON chunk and a binary chunk. Lengths are stored
/// in 32 bits.
#[verifier::opaque]
pub open spec fn container(json: Seq<u8>, bin: Seq<u8>) -> Seq<u8> {
    bytes::le32(GLB_MAGIC as nat) + bytes::le32(2) + bytes::le32(28 + json.len() + bin.len())
        + bytes::le32(json.len()) + bytes::le32(CHUNK_JSON as nat) + json + bytes::le32(bin.len())
        + bytes::le32(CHUNK_BIN as nat) + bin
}

/// The GLB of a tile.
pub open spec fn glb_spec(grid: Grid, b: VertexBuffers, jpeg: Seq<u8>, meta: MetaView) -> Seq<u8> {
    container(
        glb_json(grid, b, jpeg, meta),
        bin_spec(b, grid.indices@, grid.vertices@.len(), jpeg),
    )
}

// -- writing -----------------------------------------------------------------------

fn view_value(offset: usize, len: usize, target: Option<u32>, stride: Option<u32>) -> (v:
    serde_json::Value)
    ensures
        json::tree_of(v) == view_tree(offset as nat, len as nat, target, stride),
{
    let mut f: Vec<(String, serde_json::Value)> = Vec::new();
    json::field(&mut f, "buffer", json::uint(0));
    json::field(&mut f, "byteOffset", json::uint(offset as u64));
    json::field(&mut f, "byteLength", json::uint(len as u64));
    if let Some(t) = target {
        json::field(&mut f, "target", json::uint(t as u64));
    }
    if let Some(s) = stride {
        json::field(&mut f, "byteStride", json::uint(s as u64));
    }
    json::object(f)
}

/// Append `chunk` to the buffer at a 4-byte-aligned offset and record the
/// bufferView; returns its index.
fn push_view(
    bin: &mut Vec<u8>,
    views: &mut Vec<serde_json::Value>,
    chunk: &[u8],
    target: Option<u32>,
    stride: Option<u32>,
) -> (index: usize)
    ensures
        final(bin)@ == placed(old(bin)@, chunk@),
        json::trees_of(final(views)@) == json::trees_of(old(views)@).push(
            view_tree(bytes::padded4(old(bin)@, 0).len(), chunk@.len(), target, stride),
        ),
        index == json::trees_of(old(views)@).len(),
{
    let ghost before = views@;
    bytes::pad_to_4(bin, 0);
    let offset: usize = bin.len();
    bytes::extend(bin, chunk);
    let v: serde_json::Value = view_value(offset, chunk.len(), target, stride);
    let index: usize = views.len();
    views.push(v);
    assert(json::trees_of(views@) =~= json::trees_of(before).push(json::tree_of(v)));
    index
}

fn accessor_value(view: usize, component: u32, count: usize, kind: &str) -> (v: serde_json::Value)
    ensures
        json::tree_of(v) == accessor_tree(view as nat, component, count as nat, kind@),
{
    let mut f: Vec<(String, serde_json::Value)> = Vec::new();
    json::field(&mut f, "bufferView", json::uint(view as u64));
    json::field(&mut f, "componentType", json::uint(component as u64));
    json::field(&mut f, "count", json::uint(count as u64));
    json::field(&mut f, "type", json::text(kind));
    json::object(f)
}

fn triple_value(v: &[Option<serde_json::Number>; 3]) -> (r: serde_json::Value)
    ensures
        json::tree_of(r) == triple_tree(*v),
{
    let mut values: Vec<serde_json::Value> = Vec::new();
    values.push(json::optional_number(&v[0]));
    values.push(json::optional_number(&v[1]));
    values.push(json::optional_number(&v[2]));
    assert(json::trees_of(values@) =~= seq![
        json::optional(v@[0]),
        json::optional(v@[1]),
        json::optional(v@[2]),
    ]);
    json::list(values)
}

fn position_value(b: &VertexBuffers, count: usize) -> (v: serde_json::Value)
    ensures
        json::tree_of(v) == position_tree(*b, count as nat),
{
    let mut f: Vec<(String, serde_json::Value)> = Vec::new();
    json::field(&mut f, "bufferView", json::uint(0));
    json::field(&mut f, "componentType", json::uint(FLOAT as u64));
    json::field(&mut f, "count", json::uint(count as u64));
    json::field(&mut f, "type", json::text("VEC3"));
    json::field(&mut f, "min", triple_value(&b.min));
    json::field(&mut f, "max", triple_value(&b.max));
    json::object(f)
}

fn accessors_value(b: &VertexBuffers, count: usize, indices: usize) -> (v: serde_json::Value)
    ensures
        json::tree_of(v) == Tree::List(accessors_tree(*b, count as nat, indices as nat)),
{
    let component: u32 = if count <= 65536 {
        UNSIGNED_SHORT
    } else {
        UNSIGNED_INT
    };
    let mut values: Vec<serde_json::Value> = Vec::new();
    values.push(position_value(b, count));
    values.push(accessor_value(1, FLOAT, count, "VEC2"));
    if b.normals.len() > 0 {
        values.push(accessor_value(2, FLOAT, count, "VEC3"));
        values.push(accessor_value(3, component, indices, "SCALAR"));
    } else {
        values.push(accessor_value(2, component, indices, "SCALAR"));
    }
    assert(json::trees_of(values@) =~= accessors_tree(*b, count as nat, indices as nat));
    json::list(values)
}

fn mesh_value(tile: TileId, has_normals: bool) -> (v: serde_json::Value)
    ensures
        json::tree_of(v) == mesh_tree(tile, has_normals),
{
    let mut a: Vec<(String, serde_json::Value)> = Vec::new();
    json::field(&mut a, "POSITION", json::uint(0));
    json::field(&mut a, "TEXCOORD_0", json::uint(1));
    if has_normals {
        json::field(&mut a, "NORMAL", json::uint(2));
    }
    let indices: u64 = if has_normals {
        3
    } else {
        2
    };
    let mut p: Vec<(String, serde_json::Value)> = Vec::new();
    json::field(&mut p, "attributes", json::object(a));
    json::field(&mut p, "indices", json::uint(indices));
    json::field(&mut p, "material", json::uint(0));
    json::field(&mut p, "mode", json::uint(4));
    let name: String = tile.to_string();
    let mut f: Vec<(String, serde_json::Value)> = Vec::new();
    json::field(&mut f, "name", json::text(name.as_str()));
    json::field(&mut f, "primitives", json::singleton(json::object(p)));
    json::object(f)
}

fn sampler_value() -> (v: serde_json::Value)
    ensures
        json::tree_of(v) == sampler_tree(),
{
    let mut f: Vec<(String, serde_json::Value)> = Vec::new();
    json::field(&mut f, "magFilter", json::uint(LINEAR as u64));
    json::field(&mut f, "minFilter", json::uint(LINEAR_MIPMAP_LINEAR as u64));
    json::field(&mut f, "wrapS", json::uint(CLAMP_TO_EDGE as u64));
    json::field(&mut f, "wrapT", json::uint(CLAMP_TO_EDGE as u64));
    json::object(f)
}

fn material_value() -> (v: serde_json::Value)
    ensures
        json::tree_of(v) == material_tree(),
{
    let mut t: Vec<(String, serde_json::Value)> = Vec::new();
    json::field(&mut t, "index", json::uint(0));
    let mut p: Vec<(String, serde_json::Value)> = Vec::new();
    json::field(&mut p, "baseColorTexture", json::object(t));
    json::field(&mut p, "metallicFactor", json::optional_number(&json::parse_number("0.0")));
    json::field(&mut p, "roughnessFactor", json::optional_number(&json::parse_number("1.0")));
    let mut f: Vec<(String, serde_json::Value)> = Vec::new();
    json::field(&mut f, "name", json::text("terrain"));
    json::field(&mut f, "pbrMetallicRoughness", json::object(p));
    json::object(f)
}

fn extras_value(meta: &TileMeta) -> (v: serde_json::Value)
    ensures
        json::tree_of(v) == extras_tree(meta@),
{
    let mut b: Vec<(String, serde_json::Value)> = Vec::new();
    json::field(&mut b, "north", json::optional_number(&meta.north));
    json::field(&mut b, "south", json::optional_number(&meta.south));
    json::field(&mut b, "west", json::optional_number(&meta.west));
    json::field(&mut b, "east", json::optional_number(&meta.east));
    let mut s: Vec<(String, serde_json::Value)> = Vec::new();
    json::field(&mut s, "imagery", json::text(meta.imagery_attribution.as_str()));
    json::field(&mut s, "elevation", json::text(meta.elevation_attribution.as_str()));
    let requested: serde_json::Value = match meta.resolution_requested {
        Some(r) => json::uint(r as u64),
        None => json::null(),
    };
    let mut f: Vec<(String, serde_json::Value)> = Vec::new();
    json::field(&mut f, "zoom", json::uint(meta.tile.zoom as u64));
    json::field(&mut f, "x", json::uint(meta.tile.x as u64));
    json::field(&mut f, "y", json::uint(meta.tile.y as u64));
    json::field(&mut f, "tile_size_m", json::optional_number(&meta.tile_size_m));
    json::field(&mut f, "bounds", json::object(b));
    json::field(&mut f, "resolution", json::uint(meta.resolution as u64));
    json::field(&mut f, "resolution_requested", requested);
    json::field(&mut f, "terrain_source_zoom", json::uint(meta.terrain_source_zoom as u64));
    json::field(&mut f, "imagery_source_zoom", json::uint(meta.imagery_source_zoom as u64));
    json::field(&mut f, "units", json::text("metres"));
    json::field(&mut f, "up", json::text("+Y"));
    json::field(
        &mut f,
        "origin",
        json::text("north-west corner; +X east, +Z south; Y is metres above sea level"),
    );
    json::field(&mut f, "sources", json::object(s));
    match meta.normals {
        NormalsOrigin::Omitted => {},
        NormalsOrigin::Heights => {
            json::field(&mut f, "normals_source_zoom", json::null());
        },
        NormalsOrigin::Provider(z) => {
            json::field(&mut f, "normals_source_zoom", json::uint(z as u64));
        },
    }
    json::object(f)
}

fn document_value(
    bin_len: usize,
    views: Vec<serde_json::Value>,
    accessors: serde_json::Value,
    has_normals: bool,
    meta: &TileMeta,
    Ghost(accessor_trees): Ghost<Seq<Tree>>,
) -> (v: serde_json::Value)
    requires
        json::tree_of(accessors) == Tree::List(accessor_trees),
    ensures
        json::tree_of(v) == document_tree(
            bin_len as nat,
            json::trees_of(views@),
            accessor_trees,
            has_normals,
            meta@,
        ),
{
    let mut asset: Vec<(String, serde_json::Value)> = Vec::new();
    json::field(&mut asset, "version", json::text("2.0"));
    json::field(&mut asset, "generator", json::text("open-tiles 0.1.0"));
    let mut buffer: Vec<(String, serde_json::Value)> = Vec::new();
    json::field(&mut buffer, "byteLength", json::uint(bin_len as u64));
    let image_view: u64 = if has_normals {
        4
    } else {
        3
    };
    let mut image: Vec<(String, serde_json::Value)> = Vec::new();
    json::field(&mut image, "bufferView", json::uint(image_view));
    json::field(&mut image, "mimeType", json::text("image/jpeg"));
    let mut texture: Vec<(String, serde_json::Value)> = Vec::new();
    json::field(&mut texture, "sampler", json::uint(0));
    json::field(&mut texture, "source", json::uint(0));
    let name: String = meta.tile.to_string();
    let mut node: Vec<(String, serde_json::Value)> = Vec::new();
    json::field(&mut node, "name", json::text(name.as_str()));
    json::field(&mut node, "mesh", json::uint(0));
    let mut scene: Vec<(String, serde_json::Value)> = Vec::new();
    json::field(&mut scene, "nodes", json::singleton(json::uint(0)));
    let mut f: Vec<(String, serde_json::Value)> = Vec::new();
    json::field(&mut f, "asset", json::object(asset));
    json::field(&mut f, "buffers", json::singleton(json::object(buffer)));
    json::field(&mut f, "bufferViews", json::list(views));
    json::field(&mut f, "accessors", accessors);
    json::field(&mut f, "images", json::singleton(json::object(image)));
    json::field(&mut f, "samplers", json::singleton(sampler_value()));
    json::field(&mut f, "textures", json::singleton(json::object(texture)));
    json::field(&mut f, "materials", json::singleton(material_value()));
    json::field(&mut f, "meshes", json::singleton(mesh_value(meta.tile, has_normals)));
    json::field(&mut f, "nodes", json::singleton(json::object(node)));
    json::field(&mut f, "scenes", json::singleton(json::object(scene)));
    json::field(&mut f, "scene", json::uint(0));
    json::field(&mut f, "extras", extras_value(meta));
    json::object(f)
}

/// The low 32 bits of a length.
fn low32(len: u128) -> (x: u32)
    ensures
        x == len % 0x1_0000_0000,
{
    (len % 0x1_0000_0000) as u32
}

proof fn lemma_low32(x: nat)
    ensures
        bytes::le32(x % 0x1_0000_0000) == bytes::le32(x),
{
    reveal(bytes::le32);
    let y = x % 0x1_0000_0000;
    let k = x / 0x1_0000_0000;
    assert(x == k * 0x1_0000_0000 + y);
    assert(x % 256 == y % 256) by {
        lemma_low_byte(k * 0x100_0000, y);
    }
    assert(x / 256 == k * 0x100_0000 + y / 256);
    lemma_low_byte(k * 65536, y / 256);
    assert(x / 65536 == k * 65536 + y / 65536);
    lemma_low_byte(k * 256, y / 65536);
    assert(x / 0x100_0000 == k * 256 + y / 0x100_0000);
    lemma_low_byte(k, y / 0x100_0000);
}

proof fn lemma_low_byte(hi: nat, lo: nat)
    ensures
        (hi * 256 + lo) % 256 == lo % 256,
{
}

fn container_bytes(json: &Vec<u8>, bin: &Vec<u8>) -> (out: Vec<u8>)
    ensures
        out@ == container(json@, bin@),
{
    let total: u128 = 28 + json.len() as u128 + bin.len() as u128;
    proof {
        lemma_low32(total as nat);
        lemma_low32(json@.len());
        lemma_low32(bin@.len());
    }
    let mut out: Vec<u8> = Vec::new();
    bytes::push_le32(&mut out, GLB_MAGIC);
    bytes::push_le32(&mut out, 2);
    bytes::push_le32(&mut out, low32(total));
    bytes::push_le32(&mut out, low32(json.len() as u128));
    bytes::push_le32(&mut out, CHUNK_JSON);
    bytes::extend(&mut out, json.as_slice());
    bytes::push_le32(&mut out, low32(bin.len() as u128));
    bytes::push_le32(&mut out, CHUNK_BIN);
    bytes::extend(&mut out, bin.as_slice());
    proof {
        reveal(container);
    }
    assert(out@ =~= container(json@, bin@));
    out
}

/// Serialize a tile to GLB bytes. `jpeg` must be a JPEG stream.
pub fn write_glb(grid: &Grid, buffers: &VertexBuffers, jpeg: &[u8], meta: &TileMeta) -> (out: Vec<
    u8,
>)
    requires
        buffers.holds(grid.vertices@.len()),
    ensures
        out@ == glb_spec(*grid, *buffers, jpeg@, meta@),
{
    let count: usize = grid.vertices.len();
    let mut bin: Vec<u8> = Vec::new();
    let mut views: Vec<serde_json::Value> = Vec::new();
    assert(json::trees_of(views@) =~= Seq::empty());
    assert(bytes::padded4(bin@, 0) =~= Seq::empty());

    let positions: Vec<u8> = bytes::words32(&buffers.positions);
    push_view(&mut bin, &mut views, positions.as_slice(), Some(ARRAY_BUFFER), Some(12));
    let uvs: Vec<u8> = bytes::words32(&buffers.uvs);
    push_view(&mut bin, &mut views, uvs.as_slice(), Some(ARRAY_BUFFER), Some(8));
    let has_normals: bool = buffers.normals.len() > 0;
    if has_normals {
        let normals: Vec<u8> = bytes::words32(&buffers.normals);
        push_view(&mut bin, &mut views, normals.as_slice(), Some(ARRAY_BUFFER), Some(12));
    }
    let indices: Vec<u8> = if grid.fits_u16() {
        bytes::words16(&grid.indices)
    } else {
        bytes::words32(&grid.indices)
    };
    push_view(&mut bin, &mut views, indices.as_slice(), Some(ELEMENT_ARRAY_BUFFER), None);
    push_view(&mut bin, &mut views, jpeg, None, None);
    bytes::pad_to_4(&mut bin, 0);
    assert(bin@ == bin_spec(*buffers, grid.indices@, count as nat, jpeg@));
    assert(json::trees_of(views@) =~= views_spec(*buffers, grid.indices@, count as nat, jpeg@));

    let accessors: serde_json::Value = accessors_value(buffers, count, grid.indices.len());
    let doc: serde_json::Value = document_value(
        bin.len(),
        views,
        accessors,
        has_normals,
        meta,
        Ghost(accessors_tree(*buffers, count as nat, grid.indices@.len())),
    );
    let mut json: Vec<u8> = json::to_bytes(&doc);
    proof {
        reveal(json_document);
    }
    bytes::pad_to_4(&mut json, 0x20);
    container_bytes(&json, &bin)
}

// -- laws ------------------------------------------------------------------------

/// A container reads back: the header names its own length and the two
/// chunks, each where its length says, as long as the whole fits 32 bits.
pub proof fn law_container_reads_back(json: Seq<u8>, bin: Seq<u8>)
    requires
        28 + json.len() + bin.len() < 0x1_0000_0000,
    ensures
        ({
            let out = container(json, bin);
            &&& out.len() == 28 + json.len() + bin.len()
            &&& bytes::le32_value(out.subrange(0, 4)) == GLB_MAGIC
            &&& bytes::le32_value(out.subrange(4, 8)) == 2
            &&& bytes::le32_value(out.subrange(8, 12)) == out.len()
            &&& bytes::le32_value(out.subrange(12, 16)) == json.len()
            &&& bytes::le32_value(out.subrange(16, 20)) == CHUNK_JSON
            &&& out.subrange(20, 20 + json.len() as int) == json
            &&& bytes::le32_value(
                out.subrange(20 + json.len() as int, 24 + json.len() as int),
            ) == bin.len()
            &&& bytes::le32_value(
                out.subrange(24 + json.len() as int, 28 + json.len() as int),
            ) == CHUNK_BIN
            &&& out.subrange(28 + json.len() as int, out.len() as int) == bin
        }),
{
    reveal(container);
    lemma_header_lens(json, bin);
    bytes::lemma_le32_reads_back(GLB_MAGIC as nat);
    bytes::lemma_le32_reads_back(2);
    bytes::lemma_le32_reads_back(28 + json.len() + bin.len());
    bytes::lemma_le32_reads_back(json.len());
    bytes::lemma_le32_reads_back(CHUNK_JSON as nat);
    bytes::lemma_le32_reads_back(bin.len());
    bytes::lemma_le32_reads_back(CHUNK_BIN as nat);
    lemma_nine_parts(
        bytes::le32(GLB_MAGIC as nat),
        bytes::le32(2),
        bytes::le32(28 + json.len() + bin.len()),
        bytes::le32(json.len()),
        bytes::le32(CHUNK_JSON as nat),
        json,
        bytes::le32(bin.len()),
        bytes::le32(CHUNK_BIN as nat),
        bin,
    );
}

proof fn lemma_nine_parts(
    a: Seq<u8>,
    b: Seq<u8>,
    c: Seq<u8>,
    d: Seq<u8>,
    e: Seq<u8>,
    json: Seq<u8>,
    f: Seq<u8>,
    g: Seq<u8>,
    bin: Seq<u8>,
)
    requires
        a.len() == 4 && b.len() == 4 && c.len() == 4 && d.len() == 4,
        e.len() == 4 && f.len() == 4 && g.len() == 4,
    ensures
        ({
            let out = a + b + c + d + e + json + f + g + bin;
            let j = json.len() as int;
            &&& out.len() == 28 + j + bin.len()
            &&& out.subrange(0, 4) == a
            &&& out.subrange(4, 8) == b
            &&& out.subrange(8, 12) == c
            &&& out.subrange(12, 16) == d
            &&& out.subrange(16, 20) == e
            &&& out.subrange(20, 20 + j) == json
            &&& out.subrange(20 + j, 24 + j) == f
            &&& out.subrange(24 + j, 28 + j) == g
            &&& out.subrange(28 + j, out.len() as int) == bin
        }),
{
    let out = a + b + c + d + e + json + f + g + bin;
    let j = json.len() as int;
    assert(out.subrange(0, 4) =~= a);
    assert(out.subrange(4, 8) =~= b);
    assert(out.subrange(8, 12) =~= c);
    assert(out.subrange(12, 16) =~= d);
    assert(out.subrange(16, 20) =~= e);
    assert(out.subrange(20, 20 + j) =~= json);
    assert(out.subrange(20 + j, 24 + j) =~= f);
    assert(out.subrange(24 + j, 28 + j) =~= g);
    assert(out.subrange(28 + j, out.len() as int) =~= bin);
}

/// Both chunks of a tile, and with them the whole file, are multiples of
/// four bytes long.
pub proof fn law_chunks_are_aligned(grid: Grid, b: VertexBuffers, jpeg: Seq<u8>, meta: MetaView)
    ensures
        glb_json(grid, b, jpeg, meta).len() % 4 == 0,
        bin_spec(b, grid.indices@, grid.vertices@.len(), jpeg).len() % 4 == 0,
        glb_spec(grid, b, jpeg, meta).len() % 4 == 0,
{
    let body = placed(bin_indices(b, grid.indices@, grid.vertices@.len()), jpeg);
    lemma_aligned(json_document(grid, b, jpeg, meta), body);
}

proof fn lemma_aligned(text: Seq<u8>, body: Seq<u8>)
    ensures
        bytes::padded4(text, 0x20).len() % 4 == 0,
        bytes::padded4(body, 0).len() % 4 == 0,
        container(bytes::padded4(text, 0x20), bytes::padded4(body, 0)).len() % 4 == 0,
{
    lemma_padded_len(text, 0x20);
    lemma_padded_len(body, 0);
    lemma_container_len(bytes::padded4(text, 0x20), bytes::padded4(body, 0));
}

proof fn lemma_padded_len(s: Seq<u8>, fill: u8)
    ensures
        bytes::padded4(s, fill).len() % 4 == 0,
{
}

proof fn lemma_container_len(json: Seq<u8>, bin: Seq<u8>)
    ensures
        container(json, bin).len() == 28 + json.len() + bin.len(),
{
    reveal(container);
    lemma_header_lens(json, bin);
}

proof fn lemma_header_lens(json: Seq<u8>, bin: Seq<u8>)
    ensures
        bytes::le32(GLB_MAGIC as nat).len() == 4,
        bytes::le32(2).len() == 4,
        bytes::le32(28 + json.len() + bin.len()).len() == 4,
        bytes::le32(json.len()).len() == 4,
        bytes::le32(CHUNK_JSON as nat).len() == 4,
        bytes::le32(bin.len()).len() == 4,
        bytes::le32(CHUNK_BIN as nat).len() == 4,
{
    bytes::lemma_le32_len(GLB_MAGIC as nat);
    bytes::lemma_le32_len(2);
    bytes::lemma_le32_len(28 + json.len() + bin.len());
    bytes::lemma_le32_len(json.len());
    bytes::lemma_le32_len(CHUNK_JSON as nat);
    bytes::lemma_le32_len(bin.len());
    bytes::lemma_le32_len(CHUNK_BIN as nat);
}

/// The bytes `chunk` lie in `bin` at `offset`, which is a multiple of four.
pub open spec fn lies_at(bin: Seq<u8>, offset: nat, chunk: Seq<u8>) -> bool {
    &&& offset % 4 == 0
    &&& offset + chunk.len() <= bin.len()
    &&& bin.subrange(offset as int, (offset + chunk.len()) as int) == chunk
}

proof fn lemma_placed(bin: Seq<u8>, chunk: Seq<u8>)
    ensures
        lies_at(placed(bin, chunk), bytes::padded4(bin, 0).len(), chunk),
{
    let o = bytes::padded4(bin, 0).len() as int;
    assert(placed(bin, chunk).subrange(o, o + chunk.len()) =~= chunk);
}

proof fn lemma_lies_on(bin: Seq<u8>, more: Seq<u8>, offset: nat, chunk: Seq<u8>)
    requires
        lies_at(bin, offset, chunk),
        bin.is_prefix_of(more),
    ensures
        lies_at(more, offset, chunk),
{
    assert forall|k: int| 0 <= k < bin.len() implies more[k] == bin[k] by {
        assert(more.subrange(0, bin.len() as int)[k] == bin[k]);
    }
    let o = offset as int;
    assert(more.subrange(o, o + chunk.len()) =~= bin.subrange(o, o + chunk.len()));
}

proof fn lemma_grows(bin: Seq<u8>, chunk: Seq<u8>)
    ensures
        bin.is_prefix_of(placed(bin, chunk)),
        bin.is_prefix_of(bytes::padded4(bin, 0)),
{
    assert(placed(bin, chunk).subrange(0, bin.len() as int) =~= bin);
    assert(bytes::padded4(bin, 0).subrange(0, bin.len() as int) =~= bin);
}

proof fn lemma_prefix_chain(a: Seq<u8>, b: Seq<u8>, c: Seq<u8>)
    requires
        a.is_prefix_of(b),
        b.is_prefix_of(c),
    ensures
        a.is_prefix_of(c),
{
    assert forall|k: int| 0 <= k < a.len() implies c[k] == a[k] by {
        assert(b.subrange(0, a.len() as int)[k] == a[k]);
        assert(c.subrange(0, b.len() as int)[k] == b[k]);
    }
    assert(c.subrange(0, a.len() as int) =~= a);
}

/// What a bufferView records is where its bytes are: positions, UVs, normals
/// where there are any, indices and the JPEG each lie in the buffer, whole
/// and aligned, at the offset recorded for them.
pub proof fn law_views_point_at_their_bytes(
    b: VertexBuffers,
    indices: Seq<u32>,
    count: nat,
    jpeg: Seq<u8>,
)
    ensures
        ({
            let bin = bin_spec(b, indices, count, jpeg);
            let positions = bytes::le32_words(b.positions@);
            &&& lies_at(bin, 0, positions)
            &&& lies_at(
                bin,
                bytes::padded4(placed(Seq::empty(), positions), 0).len(),
                bytes::le32_words(b.uvs@),
            )
            &&& b.normals@.len() > 0 ==> lies_at(
                bin,
                bytes::padded4(bin_uvs(b), 0).len(),
                bytes::le32_words(b.normals@),
            )
            &&& lies_at(
                bin,
                bytes::padded4(bin_normals(b), 0).len(),
                index_bytes(indices, count),
            )
            &&& lies_at(bin, bytes::padded4(bin_indices(b, indices, count), 0).len(), jpeg)
        }),
{
    let positions = bytes::le32_words(b.positions@);
    let uvs = bytes::le32_words(b.uvs@);
    let normals = bytes::le32_words(b.normals@);
    let idx = index_bytes(indices, count);
    let b0 = Seq::<u8>::empty();
    let b1 = placed(b0, positions);
    let b2 = bin_uvs(b);
    let b3 = bin_normals(b);
    let b4 = bin_indices(b, indices, count);
    let b5 = placed(b4, jpeg);
    let bin = bin_spec(b, indices, count, jpeg);
    assert(bytes::padded4(b0, 0) =~= b0);
    lemma_placed(b0, positions);
    lemma_placed(b1, uvs);
    lemma_placed(b2, normals);
    lemma_placed(b3, idx);
    lemma_placed(b4, jpeg);
    lemma_grows(b1, uvs);
    lemma_grows(b2, normals);
    lemma_grows(b3, idx);
    lemma_grows(b4, jpeg);
    lemma_grows(b5, jpeg);
    assert(b2.is_prefix_of(b3)) by {
        assert(b2.subrange(0, b2.len() as int) =~= b2);
    }
    lemma_prefix_chain(b4, b5, bin);
    lemma_prefix_chain(b3, b4, bin);
    lemma_prefix_chain(b2, b3, bin);
    lemma_prefix_chain(b1, b2, bin);
    lemma_lies_on(b1, bin, 0, positions);
    lemma_lies_on(b2, bin, bytes::padded4(b1, 0).len(), uvs);
    if b.normals@.len() > 0 {
        lemma_lies_on(b3, bin, bytes::padded4(b2, 0).len(), normals);
    }
    lemma_lies_on(b4, bin, bytes::padded4(b3, 0).len(), idx);
    lemma_lies_on(b5, bin, bytes::padded4(b4, 0).len(), jpeg);
}

/// The value under `key` of an object.
pub open spec fn member(t: Tree, key: Seq<char>) -> Tree {
    t->Object_0[key]
}

/// `t` is an object with something under `key`.
pub open spec fn has_key(t: Tree, key: Seq<char>) -> bool {
    t is Object && t->Object_0.dom().contains(key)
}

/// `t` is an object with `value` under `key`.
pub open spec fn holds(t: Tree, key: Seq<char>, value: Tree) -> bool {
    has_key(t, key) && member(t, key) == value
}

/// Entry `i` of the list under `key`.
pub open spec fn entry(t: Tree, key: Seq<char>, i: int) -> Tree {
    member(t, key)->List_0[i]
}

/// `t` is an object with a list of `n` values under `key`.
pub open spec fn lists(t: Tree, key: Seq<char>, n: nat) -> bool {
    has_key(t, key) && member(t, key) is List && member(t, key)->List_0.len() == n
}

/// The document's bufferView `k` is the `len` bytes of its one buffer from
/// `offset` on.
pub open spec fn views_bytes(doc: Tree, k: nat, offset: nat, len: nat) -> bool {
    let v = entry(doc, "bufferViews"@, k as int);
    &&& has_key(doc, "bufferViews"@)
    &&& k < member(doc, "bufferViews"@)->List_0.len()
    &&& holds(v, "buffer"@, json::whole(0))
    &&& holds(v, "byteOffset"@, json::whole(offset))
    &&& holds(v, "byteLength"@, json::whole(len))
}

/// The document's accessor `k` is `count` elements of a kind, with components
/// of a type, in bufferView `k`, and begins with it.
pub open spec fn accesses(doc: Tree, k: nat, component: nat, count: nat, kind: Seq<char>) -> bool {
    let a = entry(doc, "accessors"@, k as int);
    &&& has_key(doc, "accessors"@)
    &&& k < member(doc, "accessors"@)->List_0.len()
    &&& holds(a, "bufferView"@, json::whole(k))
    &&& holds(a, "componentType"@, json::whole(component))
    &&& holds(a, "count"@, json::whole(count))
    &&& holds(a, "type"@, Tree::Text(kind))
    &&& !has_key(a, "byteOffset"@)
    &&& !has_key(a, "normalized"@)
    &&& !has_key(a, "sparse"@)
}

/// The one primitive of the document's one mesh.
pub open spec fn primitive_of(doc: Tree) -> Tree {
    entry(entry(doc, "meshes"@, 0), "primitives"@, 0)
}

/// What the document holds under its keys.
proof fn lemma_document_keys(
    bin_len: nat,
    views: Seq<Tree>,
    accessors: Seq<Tree>,
    has_normals: bool,
    meta: MetaView,
)
    ensures
        ({
            let doc = document_tree(bin_len, views, accessors, has_normals, meta);
            &&& holds(
                doc,
                "buffers"@,
                Tree::List(seq![Tree::Object(map!["byteLength"@ => json::whole(bin_len)])]),
            )
            &&& holds(doc, "bufferViews"@, Tree::List(views))
            &&& holds(doc, "accessors"@, Tree::List(accessors))
            &&& holds(doc, "samplers"@, Tree::List(seq![sampler_tree()]))
            &&& holds(doc, "materials"@, Tree::List(seq![material_tree()]))
            &&& holds(doc, "meshes"@, Tree::List(seq![mesh_tree(meta.tile, has_normals)]))
            &&& holds(doc, "extras"@, extras_tree(meta))
            &&& holds(doc, "scene"@, json::whole(0))
            &&& has_key(doc, "asset"@)
            &&& member(doc, "asset"@) == Tree::Object(
                map![
                    "version"@ => Tree::Text("2.0"@),
                    "generator"@ => Tree::Text("open-tiles 0.1.0"@),
                ],
            )
            &&& holds(
                doc,
                "images"@,
                Tree::List(
                    seq![
                        Tree::Object(
                            map![
                                "bufferView"@ => json::whole(
                                    if has_normals {
                                        4nat
                                    } else {
                                        3nat
                                    },
                                ),
                                "mimeType"@ => Tree::Text("image/jpeg"@),
                            ],
                        ),
                    ],
                ),
            )
            &&& holds(
                doc,
                "textures"@,
                Tree::List(
                    seq![
                        Tree::Object(
                            map!["sampler"@ => json::whole(0), "source"@ => json::whole(0)],
                        ),
                    ],
                ),
            )
            &&& holds(
                doc,
                "nodes"@,
                Tree::List(
                    seq![
                        Tree::Object(
                            map![
                                "name"@ => Tree::Text(meta.tile.text()),
                                "mesh"@ => json::whole(0),
                            ],
                        ),
                    ],
                ),
            )
            &&& holds(
                doc,
                "scenes"@,
                Tree::List(
                    seq![Tree::Object(map!["nodes"@ => Tree::List(seq![json::whole(0)])])],
                ),
            )
        }),
{
    reveal_strlit("asset");
    reveal_strlit("buffers");
    reveal_strlit("bufferViews");
    reveal_strlit("accessors");
    reveal_strlit("images");
    reveal_strlit("samplers");
    reveal_strlit("textures");
    reveal_strlit("materials");
    reveal_strlit("meshes");
    reveal_strlit("nodes");
    reveal_strlit("scenes");
    reveal_strlit("scene");
    reveal_strlit("extras");
    assert("asset"@.len() == 5 && "nodes"@.len() == 5 && "scene"@.len() == 5);
    assert("asset"@[0] == 'a' && "nodes"@[0] == 'n' && "scene"@[0] == 's');
    assert("images"@.len() == 6 && "meshes"@.len() == 6 && "scenes"@.len() == 6);
    assert("extras"@.len() == 6 && "extras"@[0] == 'e');
    assert("images"@[0] == 'i' && "meshes"@[0] == 'm' && "scenes"@[0] == 's');
    assert("samplers"@.len() == 8 && "textures"@.len() == 8);
    assert("samplers"@[0] == 's' && "textures"@[0] == 't');
    assert("accessors"@.len() == 9 && "materials"@.len() == 9);
    assert("accessors"@[0] == 'a' && "materials"@[0] == 'm');
    assert("buffers"@.len() == 7 && "bufferViews"@.len() == 11);
}

proof fn lemma_view_keys(offset: nat, len: nat, target: Option<u32>, stride: Option<u32>)
    ensures
        ({
            let v = view_tree(offset, len, target, stride);
            &&& holds(v, "buffer"@, json::whole(0))
            &&& holds(v, "byteOffset"@, json::whole(offset))
            &&& holds(v, "byteLength"@, json::whole(len))
            &&& has_key(v, "target"@) <==> target is Some
            &&& target is Some ==> member(v, "target"@) == json::whole(target->0 as nat)
            &&& has_key(v, "byteStride"@) <==> stride is Some
            &&& stride is Some ==> member(v, "byteStride"@) == json::whole(stride->0 as nat)
        }),
{
    reveal_strlit("buffer");
    reveal_strlit("byteOffset");
    reveal_strlit("byteLength");
    reveal_strlit("target");
    reveal_strlit("byteStride");
    assert("buffer"@.len() == 6 && "target"@.len() == 6);
    assert("buffer"@[0] == 'b' && "target"@[0] == 't');
    assert("byteOffset"@.len() == 10 && "byteLength"@.len() == 10 && "byteStride"@.len() == 10);
    assert("byteOffset"@[4] == 'O' && "byteLength"@[4] == 'L' && "byteStride"@[4] == 'S');
}

proof fn lemma_accessor_keys(view: nat, component: u32, count: nat, kind: Seq<char>)
    ensures
        ({
            let a = accessor_tree(view, component, count, kind);
            &&& holds(a, "bufferView"@, json::whole(view))
            &&& holds(a, "componentType"@, json::whole(component as nat))
            &&& holds(a, "count"@, json::whole(count))
            &&& holds(a, "type"@, Tree::Text(kind))
            &&& !has_key(a, "byteOffset"@)
            &&& !has_key(a, "normalized"@)
            &&& !has_key(a, "sparse"@)
        }),
{
    reveal_strlit("bufferView");
    reveal_strlit("componentType");
    reveal_strlit("count");
    reveal_strlit("type");
    reveal_strlit("byteOffset");
    reveal_strlit("normalized");
    reveal_strlit("sparse");
    assert("bufferView"@.len() == 10 && "componentType"@.len() == 13);
    assert("count"@.len() == 5 && "type"@.len() == 4 && "sparse"@.len() == 6);
    assert("byteOffset"@.len() == 10 && "normalized"@.len() == 10);
    assert("bufferView"@[1] == 'u' && "byteOffset"@[1] == 'y' && "normalized"@[1] == 'o');
}

proof fn lemma_position_keys(b: VertexBuffers, count: nat)
    ensures
        ({
            let a = position_tree(b, count);
            &&& holds(a, "bufferView"@, json::whole(0))
            &&& holds(a, "componentType"@, json::whole(5126))
            &&& holds(a, "count"@, json::whole(count))
            &&& holds(a, "type"@, Tree::Text("VEC3"@))
            &&& holds(a, "min"@, triple_tree(b.min))
            &&& holds(a, "max"@, triple_tree(b.max))
            &&& !has_key(a, "byteOffset"@)
            &&& !has_key(a, "normalized"@)
            &&& !has_key(a, "sparse"@)
        }),
{
    reveal_strlit("bufferView");
    reveal_strlit("componentType");
    reveal_strlit("count");
    reveal_strlit("type");
    reveal_strlit("min");
    reveal_strlit("max");
    reveal_strlit("byteOffset");
    reveal_strlit("normalized");
    reveal_strlit("sparse");
    assert("bufferView"@.len() == 10 && "componentType"@.len() == 13);
    assert("count"@.len() == 5 && "type"@.len() == 4 && "sparse"@.len() == 6);
    assert("min"@.len() == 3 && "max"@.len() == 3 && "min"@[1] == 'i' && "max"@[1] == 'a');
    assert("byteOffset"@.len() == 10 && "normalized"@.len() == 10);
    assert("bufferView"@[1] == 'u' && "byteOffset"@[1] == 'y' && "normalized"@[1] == 'o');
}

proof fn lemma_mesh_keys(tile: TileId, has_normals: bool)
    ensures
        ({
            let m = mesh_tree(tile, has_normals);
            let p = entry(m, "primitives"@, 0);
            let a = member(p, "attributes"@);
            &&& holds(m, "name"@, Tree::Text(tile.text()))
            &&& lists(m, "primitives"@, 1)
            &&& has_key(p, "attributes"@)
            &&& holds(p, "indices"@, json::whole(if has_normals { 3nat } else { 2nat }))
            &&& holds(p, "material"@, json::whole(0))
            &&& holds(p, "mode"@, json::whole(4))
            &&& holds(a, "POSITION"@, json::whole(0))
            &&& holds(a, "TEXCOORD_0"@, json::whole(1))
            &&& has_key(a, "NORMAL"@) <==> has_normals
            &&& has_normals ==> member(a, "NORMAL"@) == json::whole(2)
        }),
{
    reveal_strlit("name");
    reveal_strlit("primitives");
    reveal_strlit("attributes");
    reveal_strlit("indices");
    reveal_strlit("material");
    reveal_strlit("mode");
    reveal_strlit("POSITION");
    reveal_strlit("TEXCOORD_0");
    reveal_strlit("NORMAL");
    assert("name"@.len() == 4 && "primitives"@.len() == 10);
    assert("attributes"@.len() == 10 && "indices"@.len() == 7);
    assert("material"@.len() == 8 && "mode"@.len() == 4);
    assert("POSITION"@.len() == 8 && "TEXCOORD_0"@.len() == 10 && "NORMAL"@.len() == 6);
}

/// Where the parts of the buffer of a mesh with `n` vertices begin: 12 bytes
/// a position, 8 a UV pair, 12 a normal where there are any.
pub open spec fn indices_at(n: nat, has_normals: bool) -> nat {
    if has_normals {
        32 * n
    } else {
        20 * n
    }
}

/// The document draws the grid, the way a glTF reader goes through it. Its
/// one primitive is a triangle list (mode 4). The accessor of its positions
/// is one of three-component 32-bit floats, its UVs' of two, its normals',
/// where there are any, of three; all count the grid's vertices, and the
/// bytes they lead to are the vertex arrays. The accessor of its indices
/// counts the grid's, 16 bits wide where they number vertices of at most
/// 65536 and else 32, and the bytes it leads to are the grid's triangles.
pub proof fn law_document_draws_the_grid(
    grid: Grid,
    b: VertexBuffers,
    jpeg: Seq<u8>,
    meta: MetaView,
)
    requires
        b.holds(grid.vertices@.len()),
        forall|k: int|
            0 <= k < grid.indices@.len() ==> #[trigger] grid.indices@[k] < grid.vertices@.len(),
    ensures
        ({
            let doc = tile_document(grid, b, jpeg, meta);
            let n = grid.vertices@.len();
            let count = grid.indices@.len();
            let normals = b.normals@.len() > 0;
            let last: nat = if normals {
                3
            } else {
                2
            };
            let from = indices_at(n, normals);
            let wide: nat = if n <= 65536 {
                2
            } else {
                4
            };
            let bin = bin_spec(b, grid.indices@, n, jpeg);
            let p = primitive_of(doc);
            let a = member(p, "attributes"@);
            &&& lists(doc, "meshes"@, 1)
            &&& lists(entry(doc, "meshes"@, 0), "primitives"@, 1)
            &&& holds(p, "mode"@, json::whole(4))
            &&& has_key(p, "attributes"@)
            &&& holds(a, "POSITION"@, json::whole(0))
            &&& accesses(doc, 0, 5126, n, "VEC3"@)
            &&& lists(entry(doc, "accessors"@, 0), "min"@, 3)
            &&& lists(entry(doc, "accessors"@, 0), "max"@, 3)
            &&& forall|k: int|
                0 <= k < 3 ==> entry(entry(doc, "accessors"@, 0), "min"@, k) == json::optional(
                    #[trigger] b.min@[k],
                )
            &&& forall|k: int|
                0 <= k < 3 ==> entry(entry(doc, "accessors"@, 0), "max"@, k) == json::optional(
                    #[trigger] b.max@[k],
                )
            &&& views_bytes(doc, 0, 0, 12 * n)
            &&& holds(entry(doc, "bufferViews"@, 0), "byteStride"@, json::whole(12))
            &&& holds(entry(doc, "bufferViews"@, 0), "target"@, json::whole(34962))
            &&& forall|k: int|
                0 <= k < 3 * n ==> bytes::little32(bin, 4 * k) == #[trigger] b.positions@[k]
            &&& holds(a, "TEXCOORD_0"@, json::whole(1))
            &&& accesses(doc, 1, 5126, n, "VEC2"@)
            &&& views_bytes(doc, 1, 12 * n, 8 * n)
            &&& holds(entry(doc, "bufferViews"@, 1), "byteStride"@, json::whole(8))
            &&& holds(entry(doc, "bufferViews"@, 1), "target"@, json::whole(34962))
            &&& forall|k: int|
                0 <= k < 2 * n ==> bytes::little32(bin, 12 * n + 4 * k) == #[trigger] b.uvs@[k]
            &&& has_key(a, "NORMAL"@) <==> normals
            &&& normals ==> {
                &&& member(a, "NORMAL"@) == json::whole(2)
                &&& accesses(doc, 2, 5126, n, "VEC3"@)
                &&& views_bytes(doc, 2, 20 * n, 12 * n)
                &&& holds(entry(doc, "bufferViews"@, 2), "byteStride"@, json::whole(12))
                &&& holds(entry(doc, "bufferViews"@, 2), "target"@, json::whole(34962))
                &&& forall|k: int|
                    0 <= k < 3 * n ==> bytes::little32(bin, 20 * n + 4 * k)
                        == #[trigger] b.normals@[k]
            }
            &&& holds(p, "indices"@, json::whole(last))
            &&& accesses(doc, last, if n <= 65536 { 5123 } else { 5125 }, count, "SCALAR"@)
            &&& views_bytes(doc, last, from, wide * count)
            &&& !has_key(entry(doc, "bufferViews"@, last as int), "byteStride"@)
            &&& holds(entry(doc, "bufferViews"@, last as int), "target"@, json::whole(34963))
            &&& n <= 65536 ==> forall|k: int|
                0 <= k < count ==> bytes::little16(bin, from + 2 * k) == #[trigger] grid.indices@[k]
            &&& n > 65536 ==> forall|k: int|
                0 <= k < count ==> bytes::little32(bin, from + 4 * k) == #[trigger] grid.indices@[k]
        }),
{
    let n = grid.vertices@.len();
    let indices = grid.indices@;
    let normals = b.normals@.len() > 0;
    let views = views_spec(b, indices, n, jpeg);
    let accessors = accessors_tree(b, n, indices.len());
    let bin = bin_spec(b, indices, n, jpeg);
    let component = if n <= 65536 {
        UNSIGNED_SHORT
    } else {
        UNSIGNED_INT
    };
    lemma_document_keys(bin.len(), views, accessors, normals, meta);
    lemma_mesh_keys(meta.tile, normals);
    lemma_position_keys(b, n);
    lemma_accessor_keys(1, FLOAT, n, "VEC2"@);
    lemma_accessor_keys(2, FLOAT, n, "VEC3"@);
    lemma_accessor_keys(2, component, indices.len(), "SCALAR"@);
    lemma_accessor_keys(3, component, indices.len(), "SCALAR"@);
    lemma_offsets(b, indices, n, jpeg);
    let from = indices_at(n, normals);
    let positions = bytes::le32_words(b.positions@);
    let uvs = bytes::le32_words(b.uvs@);
    let idx = index_bytes(indices, n);
    lemma_view_keys(0, 12 * n, Some(ARRAY_BUFFER), Some(12));
    lemma_view_keys(12 * n, 8 * n, Some(ARRAY_BUFFER), Some(8));
    lemma_view_keys(20 * n, 12 * n, Some(ARRAY_BUFFER), Some(12));
    lemma_view_keys(from, idx.len(), Some(ELEMENT_ARRAY_BUFFER), None);
    law_views_point_at_their_bytes(b, indices, n, jpeg);
    assert forall|k: int| 0 <= k < 3 * n implies bytes::little32(bin, 4 * k)
        == #[trigger] b.positions@[k] by {
        lemma_word_in(bin, 0, b.positions@, k);
    }
    assert forall|k: int| 0 <= k < 2 * n implies bytes::little32(bin, 12 * n + 4 * k)
        == #[trigger] b.uvs@[k] by {
        lemma_word_in(bin, 12 * n, b.uvs@, k);
    }
    if normals {
        assert forall|k: int| 0 <= k < 3 * n implies bytes::little32(bin, 20 * n + 4 * k)
            == #[trigger] b.normals@[k] by {
            lemma_word_in(bin, 20 * n, b.normals@, k);
        }
    }
    if n <= 65536 {
        assert forall|k: int| 0 <= k < indices.len() implies bytes::little16(bin, from + 2 * k)
            == #[trigger] indices[k] by {
            lemma_half_word_in(bin, from, indices, k);
        }
    } else {
        assert forall|k: int| 0 <= k < indices.len() implies bytes::little32(bin, from + 4 * k)
            == #[trigger] indices[k] by {
            lemma_word_in(bin, from, indices, k);
        }
    }
}

proof fn lemma_word_in(bin: Seq<u8>, offset: nat, words: Seq<u32>, k: int)
    requires
        lies_at(bin, offset, bytes::le32_words(words)),
        0 <= k < words.len(),
    ensures
        bytes::little32(bin, offset + 4 * k) == words[k],
{
    let chunk = bytes::le32_words(words);
    let o = offset as int;
    bytes::law_words_are_stored_lowest_byte_first(words, k);
    let part = bin.subrange(o, o + chunk.len());
    assert(part == chunk);
    assert(part[4 * k] == bin[o + 4 * k]);
    assert(part[4 * k + 1] == bin[o + 4 * k + 1]);
    assert(part[4 * k + 2] == bin[o + 4 * k + 2]);
    assert(part[4 * k + 3] == bin[o + 4 * k + 3]);
}

proof fn lemma_half_word_in(bin: Seq<u8>, offset: nat, words: Seq<u32>, k: int)
    requires
        lies_at(bin, offset, bytes::le16_words(words)),
        0 <= k < words.len(),
        words[k] < 65536,
    ensures
        bytes::little16(bin, offset + 2 * k) == words[k],
{
    let chunk = bytes::le16_words(words);
    let o = offset as int;
    bytes::law_half_words_are_stored_lowest_byte_first(words, k);
    let part = bin.subrange(o, o + chunk.len());
    assert(part == chunk);
    assert(part[2 * k] == bin[o + 2 * k]);
    assert(part[2 * k + 1] == bin[o + 2 * k + 1]);
}

/// The offsets of the bufferViews, counted in vertices.
proof fn lemma_offsets(b: VertexBuffers, indices: Seq<u32>, n: nat, jpeg: Seq<u8>)
    requires
        b.holds(n),
    ensures
        bytes::le32_words(b.positions@).len() == 12 * n,
        bytes::le32_words(b.uvs@).len() == 8 * n,
        bytes::padded4(placed(Seq::empty(), bytes::le32_words(b.positions@)), 0).len() == 12 * n,
        b.normals@.len() > 0 ==> bytes::le32_words(b.normals@).len() == 12 * n,
        bytes::padded4(bin_uvs(b), 0).len() == 20 * n,
        bytes::padded4(bin_normals(b), 0).len() == indices_at(n, b.normals@.len() > 0),
        index_bytes(indices, n).len() == (if n <= 65536 {
            2 * indices.len()
        } else {
            4 * indices.len()
        }),
{
    let positions = bytes::le32_words(b.positions@);
    let uvs = bytes::le32_words(b.uvs@);
    let b0 = Seq::<u8>::empty();
    assert(bytes::padded4(b0, 0).len() == 0);
    assert(placed(b0, positions).len() == 12 * n);
    assert((12 * n) % 4 == 0 && (20 * n) % 4 == 0 && (32 * n) % 4 == 0);
    assert(bytes::padded4(placed(b0, positions), 0).len() == 12 * n);
    assert(bin_uvs(b).len() == 20 * n);
    assert(bytes::padded4(bin_uvs(b), 0).len() == 20 * n);
    assert(bin_normals(b).len() == indices_at(n, b.normals@.len() > 0));
}

/// The bufferView behind those of the vertices and the indices.
pub open spec fn picture_view(has_normals: bool) -> nat {
    if has_normals {
        4
    } else {
        3
    }
}

/// The document shows the imagery on the mesh: the primitive's material has
/// the document's one texture for its base colour, neither metallic nor
/// shiny; the texture is the document's one image, which is JPEG and leads to
/// exactly the JPEG's bytes in the buffer. It is filtered linearly, over
/// mipmaps where it shrinks, and does not wrap around.
pub proof fn law_document_shows_the_imagery(
    grid: Grid,
    b: VertexBuffers,
    jpeg: Seq<u8>,
    meta: MetaView,
)
    requires
        b.holds(grid.vertices@.len()),
    ensures
        ({
            let doc = tile_document(grid, b, jpeg, meta);
            let n = grid.vertices@.len();
            let normals = b.normals@.len() > 0;
            let bin = bin_spec(b, grid.indices@, n, jpeg);
            let material = entry(doc, "materials"@, 0);
            let pbr = member(material, "pbrMetallicRoughness"@);
            let texture = entry(doc, "textures"@, 0);
            let picture = entry(doc, "images"@, 0);
            let sampler = entry(doc, "samplers"@, 0);
            let last = picture_view(normals);
            &&& holds(primitive_of(doc), "material"@, json::whole(0))
            &&& lists(doc, "materials"@, 1)
            &&& has_key(material, "pbrMetallicRoughness"@)
            &&& has_key(pbr, "baseColorTexture"@)
            &&& holds(member(pbr, "baseColorTexture"@), "index"@, json::whole(0))
            &&& holds(pbr, "metallicFactor"@, json::optional(json::number_of("0.0"@)))
            &&& holds(pbr, "roughnessFactor"@, json::optional(json::number_of("1.0"@)))
            &&& lists(doc, "textures"@, 1)
            &&& holds(texture, "source"@, json::whole(0))
            &&& holds(texture, "sampler"@, json::whole(0))
            &&& lists(doc, "images"@, 1)
            &&& holds(picture, "mimeType"@, Tree::Text("image/jpeg"@))
            &&& holds(picture, "bufferView"@, json::whole(last))
            &&& exists|offset: nat|
                {
                    &&& #[trigger] views_bytes(doc, last, offset, jpeg.len())
                    &&& offset % 4 == 0
                    &&& offset + jpeg.len() <= bin.len()
                    &&& bin.subrange(offset as int, (offset + jpeg.len()) as int) == jpeg
                }
            &&& lists(doc, "samplers"@, 1)
            &&& holds(sampler, "magFilter"@, json::whole(9729))
            &&& holds(sampler, "minFilter"@, json::whole(9987))
            &&& holds(sampler, "wrapS"@, json::whole(33071))
            &&& holds(sampler, "wrapT"@, json::whole(33071))
        }),
{
    let n = grid.vertices@.len();
    let indices = grid.indices@;
    let normals = b.normals@.len() > 0;
    let views = views_spec(b, indices, n, jpeg);
    let accessors = accessors_tree(b, n, indices.len());
    let bin = bin_spec(b, indices, n, jpeg);
    let doc = tile_document(grid, b, jpeg, meta);
    lemma_document_keys(bin.len(), views, accessors, normals, meta);
    lemma_mesh_keys(meta.tile, normals);
    lemma_material_keys();
    let offset = bytes::padded4(bin_indices(b, indices, n), 0).len();
    lemma_view_keys(offset, jpeg.len(), None, None);
    law_views_point_at_their_bytes(b, indices, n, jpeg);
    let last = picture_view(normals);
    assert(entry(doc, "images"@, 0) == picture_with(json::whole(last)));
    assert(views_bytes(doc, last, offset, jpeg.len()));
}

proof fn lemma_material_keys()
    ensures
        ({
            let m = material_tree();
            let pbr = member(m, "pbrMetallicRoughness"@);
            let s = sampler_tree();
            let t = Tree::Object(map!["sampler"@ => json::whole(0), "source"@ => json::whole(0)]);
            &&& has_key(m, "pbrMetallicRoughness"@)
            &&& has_key(pbr, "baseColorTexture"@)
            &&& holds(member(pbr, "baseColorTexture"@), "index"@, json::whole(0))
            &&& holds(pbr, "metallicFactor"@, json::optional(json::number_of("0.0"@)))
            &&& holds(pbr, "roughnessFactor"@, json::optional(json::number_of("1.0"@)))
            &&& holds(s, "magFilter"@, json::whole(9729))
            &&& holds(s, "minFilter"@, json::whole(9987))
            &&& holds(s, "wrapS"@, json::whole(33071))
            &&& holds(s, "wrapT"@, json::whole(33071))
            &&& holds(t, "sampler"@, json::whole(0))
            &&& holds(t, "source"@, json::whole(0))
        }),
        forall|v: Tree|
            {
                let i = #[trigger] picture_with(v);
                holds(i, "bufferView"@, v) && holds(i, "mimeType"@, Tree::Text("image/jpeg"@))
            },
{
    reveal_strlit("name");
    reveal_strlit("pbrMetallicRoughness");
    reveal_strlit("baseColorTexture");
    reveal_strlit("metallicFactor");
    reveal_strlit("roughnessFactor");
    reveal_strlit("magFilter");
    reveal_strlit("minFilter");
    reveal_strlit("wrapS");
    reveal_strlit("wrapT");
    reveal_strlit("sampler");
    reveal_strlit("source");
    reveal_strlit("bufferView");
    reveal_strlit("mimeType");
    assert("name"@.len() == 4 && "pbrMetallicRoughness"@.len() == 20);
    assert("baseColorTexture"@.len() == 16 && "metallicFactor"@.len() == 14);
    assert("roughnessFactor"@.len() == 15);
    assert("magFilter"@.len() == 9 && "minFilter"@.len() == 9);
    assert("magFilter"@[1] == 'a' && "minFilter"@[1] == 'i');
    assert("wrapS"@.len() == 5 && "wrapT"@.len() == 5 && "wrapS"@[4] == 'S' && "wrapT"@[4] == 'T');
    assert("sampler"@.len() == 7 && "source"@.len() == 6);
    assert("bufferView"@.len() == 10 && "mimeType"@.len() == 8);
}

/// An image that a bufferView holds.
spec fn picture_with(view: Tree) -> Tree {
    Tree::Object(map!["bufferView"@ => view, "mimeType"@ => Tree::Text("image/jpeg"@)])
}

/// The document is one scene that shows the mesh where it is: glTF 2.0, one
/// node with the mesh and nothing that would move, turn or scale it, and one
/// buffer, as long as the binary chunk and found nowhere else.
pub proof fn law_document_places_the_mesh(
    grid: Grid,
    b: VertexBuffers,
    jpeg: Seq<u8>,
    meta: MetaView,
)
    ensures
        ({
            let doc = tile_document(grid, b, jpeg, meta);
            let bin = bin_spec(b, grid.indices@, grid.vertices@.len(), jpeg);
            let scene = entry(doc, "scenes"@, 0);
            let node = entry(doc, "nodes"@, 0);
            let buffer = entry(doc, "buffers"@, 0);
            &&& has_key(doc, "asset"@)
            &&& holds(member(doc, "asset"@), "version"@, Tree::Text("2.0"@))
            &&& holds(doc, "scene"@, json::whole(0))
            &&& lists(doc, "scenes"@, 1)
            &&& holds(scene, "nodes"@, Tree::List(seq![json::whole(0)]))
            &&& lists(doc, "nodes"@, 1)
            &&& holds(node, "mesh"@, json::whole(0))
            &&& holds(node, "name"@, Tree::Text(meta.tile.text()))
            &&& node->Object_0.dom() == set!["name"@, "mesh"@]
            &&& lists(doc, "meshes"@, 1)
            &&& lists(doc, "buffers"@, 1)
            &&& holds(buffer, "byteLength"@, json::whole(bin.len()))
            &&& buffer->Object_0.dom() == set!["byteLength"@]
        }),
{
    let n = grid.vertices@.len();
    let indices = grid.indices@;
    let views = views_spec(b, indices, n, jpeg);
    let accessors = accessors_tree(b, n, indices.len());
    let bin = bin_spec(b, indices, n, jpeg);
    let doc = tile_document(grid, b, jpeg, meta);
    lemma_document_keys(bin.len(), views, accessors, b.normals@.len() > 0, meta);
    reveal_strlit("version");
    reveal_strlit("generator");
    reveal_strlit("name");
    reveal_strlit("mesh");
    assert("version"@.len() == 7 && "generator"@.len() == 9);
    assert("name"@[0] == 'n' && "mesh"@[0] == 'm');
    assert(entry(doc, "nodes"@, 0)->Object_0.dom() =~= set!["name"@, "mesh"@]);
    assert(entry(doc, "buffers"@, 0)->Object_0.dom() =~= set!["byteLength"@]);
}

/// The `extras` record the tile: its address, its size and bounds, the
/// resolution it was built with, and the one asked for where that was
/// another, the zooms its heights and imagery came from, who is to be
/// credited for them, and where its normals came from: not at all told
/// without normals, nothing for those from the heights, else their zoom.
pub proof fn law_extras_record_the_tile(
    grid: Grid,
    b: VertexBuffers,
    jpeg: Seq<u8>,
    meta: MetaView,
)
    ensures
        ({
            let doc = tile_document(grid, b, jpeg, meta);
            let x = member(doc, "extras"@);
            let bounds = member(x, "bounds"@);
            let sources = member(x, "sources"@);
            &&& has_key(doc, "extras"@)
            &&& holds(x, "zoom"@, json::whole(meta.tile.zoom as nat))
            &&& holds(x, "x"@, json::whole(meta.tile.x as nat))
            &&& holds(x, "y"@, json::whole(meta.tile.y as nat))
            &&& holds(x, "tile_size_m"@, json::optional(meta.tile_size_m))
            &&& has_key(x, "bounds"@)
            &&& holds(bounds, "north"@, json::optional(meta.north))
            &&& holds(bounds, "south"@, json::optional(meta.south))
            &&& holds(bounds, "west"@, json::optional(meta.west))
            &&& holds(bounds, "east"@, json::optional(meta.east))
            &&& holds(x, "resolution"@, json::whole(meta.resolution as nat))
            &&& has_key(x, "resolution_requested"@)
            &&& meta.resolution_requested is Some ==> member(x, "resolution_requested"@)
                == json::whole(meta.resolution_requested->0 as nat)
            &&& meta.resolution_requested is None ==> member(x, "resolution_requested"@) is Null
            &&& holds(x, "terrain_source_zoom"@, json::whole(meta.terrain_source_zoom as nat))
            &&& holds(x, "imagery_source_zoom"@, json::whole(meta.imagery_source_zoom as nat))
            &&& has_key(x, "sources"@)
            &&& holds(sources, "imagery"@, Tree::Text(meta.imagery_attribution))
            &&& holds(sources, "elevation"@, Tree::Text(meta.elevation_attribution))
            &&& holds(x, "units"@, Tree::Text("metres"@))
            &&& holds(x, "up"@, Tree::Text("+Y"@))
            &&& holds(
                x,
                "origin"@,
                Tree::Text("north-west corner; +X east, +Z south; Y is metres above sea level"@),
            )
            &&& match meta.normals {
                NormalsOrigin::Omitted => !has_key(x, "normals_source_zoom"@),
                NormalsOrigin::Heights => holds(x, "normals_source_zoom"@, Tree::Null),
                NormalsOrigin::Provider(z) => holds(
                    x,
                    "normals_source_zoom"@,
                    json::whole(z as nat),
                ),
            }
        }),
{
    let n = grid.vertices@.len();
    let indices = grid.indices@;
    let views = views_spec(b, indices, n, jpeg);
    let accessors = accessors_tree(b, n, indices.len());
    let bin = bin_spec(b, indices, n, jpeg);
    lemma_document_keys(bin.len(), views, accessors, b.normals@.len() > 0, meta);
    lemma_normal_names();
    reveal_strlit("zoom");
    reveal_strlit("x");
    reveal_strlit("y");
    reveal_strlit("tile_size_m");
    reveal_strlit("bounds");
    reveal_strlit("resolution");
    reveal_strlit("resolution_requested");
    reveal_strlit("terrain_source_zoom");
    reveal_strlit("imagery_source_zoom");
    reveal_strlit("normals_source_zoom");
    reveal_strlit("units");
    reveal_strlit("up");
    reveal_strlit("origin");
    reveal_strlit("sources");
    reveal_strlit("north");
    reveal_strlit("south");
    reveal_strlit("west");
    reveal_strlit("east");
    reveal_strlit("imagery");
    reveal_strlit("elevation");
    assert("zoom"@.len() == 4 && "x"@.len() == 1 && "y"@.len() == 1 && "x"@[0] == 'x');
    assert("y"@[0] == 'y' && "tile_size_m"@.len() == 11 && "bounds"@.len() == 6);
    assert("resolution"@.len() == 10 && "resolution_requested"@.len() == 20);
    assert("terrain_source_zoom"@.len() == 19 && "terrain_source_zoom"@[0] == 't');
    assert("imagery_source_zoom"@.len() == 19 && "imagery_source_zoom"@[0] == 'i');
    assert("normals_source_zoom"@.len() == 19 && "normals_source_zoom"@[0] == 'n');
    assert("units"@.len() == 5 && "up"@.len() == 2 && "origin"@.len() == 6);
    assert("bounds"@[0] == 'b' && "origin"@[0] == 'o' && "sources"@.len() == 7);
    assert("north"@.len() == 5 && "south"@.len() == 5 && "west"@.len() == 4);
    assert("east"@.len() == 4 && "north"@[0] == 'n' && "south"@[0] == 's');
    assert("west"@[0] == 'w' && "east"@[0] == 'e');
    assert("imagery"@.len() == 7 && "elevation"@.len() == 9);
}

/// A tile is a GLB file: the letters `glTF`, version 2, its own length; then
/// the chunk `JSON` with the document's text, completed with spaces; then the
/// chunk `BIN` with the buffer. Numbers are four bytes, the lowest first.
pub proof fn law_tiles_are_glb_files(grid: Grid, b: VertexBuffers, jpeg: Seq<u8>, meta: MetaView)
    requires
        glb_spec(grid, b, jpeg, meta).len() < 0x1_0000_0000,
    ensures
        ({
            let out = glb_spec(grid, b, jpeg, meta);
            let text = json::json_text(tile_document(grid, b, jpeg, meta));
            let bin = bin_spec(b, grid.indices@, grid.vertices@.len(), jpeg);
            let j = bytes::little32(out, 12);
            &&& out[0] == 0x67 && out[1] == 0x6c && out[2] == 0x54 && out[3] == 0x46
            &&& bytes::little32(out, 4) == 2
            &&& bytes::little32(out, 8) == out.len()
            &&& text.len() <= j < text.len() + 4
            &&& j % 4 == 0
            &&& out[16] == 0x4a && out[17] == 0x53 && out[18] == 0x4f && out[19] == 0x4e
            &&& out.subrange(20, 20 + text.len() as int) == text
            &&& forall|k: int| 20 + text.len() <= k < 20 + j ==> #[trigger] out[k] == 0x20
            &&& bytes::little32(out, 20 + j) == bin.len()
            &&& out[24 + j] == 0x42 && out[25 + j] == 0x49 && out[26 + j] == 0x4e && out[27 + j]
                == 0
            &&& out.subrange(28 + j, out.len() as int) == bin
            &&& out.len() == 28 + j + bin.len()
        }),
{
    reveal(json_document);
    let out = glb_spec(grid, b, jpeg, meta);
    let json = glb_json(grid, b, jpeg, meta);
    let text = json_document(grid, b, jpeg, meta);
    let bin = bin_spec(b, grid.indices@, grid.vertices@.len(), jpeg);
    bytes::law_padding_only_appends(text, 0x20);
    lemma_container_len(json, bin);
    law_container_reads_back(json, bin);
    lemma_four(out, 0);
    lemma_four(out, 4);
    lemma_four(out, 8);
    lemma_four(out, 12);
    lemma_four(out, 16);
    let j = json.len() as int;
    lemma_four(out, 20 + j);
    lemma_four(out, 24 + j);
    assert(out.subrange(20, 20 + j) == json);
    assert forall|k: int| 0 <= k < j implies #[trigger] out[20 + k] == json[k] by {
        assert(out.subrange(20, 20 + j)[k] == out[20 + k]);
    }
    assert(out.subrange(20, 20 + text.len() as int) =~= text) by {
        assert forall|k: int| 0 <= k < text.len() implies out[20 + k] == text[k] by {
            assert(json.take(text.len() as int)[k] == json[k]);
        }
    }
    assert forall|k: int| 20 + text.len() <= k < 20 + j implies #[trigger] out[k] == 0x20 by {
        assert(out[20 + (k - 20)] == json[k - 20]);
    }
    lemma_four_bytes(out, 0, 0x67, 0x6c, 0x54, 0x46);
    lemma_four_bytes(out, 16, 0x4a, 0x53, 0x4f, 0x4e);
    lemma_four_bytes(out, 24 + j, 0x42, 0x49, 0x4e, 0);
}

proof fn lemma_four(s: Seq<u8>, at: int)
    requires
        0 <= at,
        at + 4 <= s.len(),
    ensures
        bytes::le32_value(s.subrange(at, at + 4)) == bytes::little32(s, at),
{
    reveal(bytes::le32_value);
}

/// Four bytes that make up a number are the number's bytes.
proof fn lemma_four_bytes(s: Seq<u8>, at: int, a: u8, b: u8, c: u8, d: u8)
    requires
        bytes::little32(s, at) == a + 256 * (b + 256 * (c + 256 * d)),
    ensures
        s[at] == a && s[at + 1] == b && s[at + 2] == c && s[at + 3] == d,
{
}

} // verus!
