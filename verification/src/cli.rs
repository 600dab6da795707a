//! What the command line decides: flags onto a configuration, exit codes and
//! the lines it prints.
//!
//! Exit codes: 0 ok · 2 usage / invalid tile · 3 nothing upstream at any
//! zoom · 4 network, decode or I/O failure.

use crate::builder::{Config, Timeout};
use crate::error::{Error, ErrorView};
use crate::scan::Summary;
use crate::text;
use crate::tile::TileId;
use vstd::prelude::*;

verus! {

/// Provider flags shared by the commands: URL templates, zoom hints, and the
/// upstream read timeout. Unset flags keep the defaults.
pub struct ProviderFlags {
    /// Imagery URL template.
    pub texture_url: Option<String>,
    /// Heightmap URL template.
    pub heightmap_url: Option<String>,
    /// Normal-map URL template.
    pub normals_url: Option<String>,
    /// Deepest zoom to ask the imagery provider for.
    pub texture_max_zoom: Option<u8>,
    /// Deepest zoom to ask the heightmap provider for.
    pub heightmap_max_zoom: Option<u8>,
    /// Deepest zoom to ask the normal-map provider for.
    pub normals_max_zoom: Option<u8>,
    /// Skip normals entirely.
    pub no_normals: bool,
    /// HTTP read timeout in seconds.
    pub timeout_s: u64,
}

/// A string, or what stands there without it.
pub open spec fn given(flag: Option<String>, default: Seq<char>) -> Seq<char> {
    match flag {
        Some(s) => s@,
        None => default,
    }
}

/// A zoom, or what stands there without it.
pub open spec fn given_zoom(flag: Option<u8>, default: u8) -> u8 {
    match flag {
        Some(z) => z,
        None => default,
    }
}

impl ProviderFlags {
    /// Copy every flag that was actually given onto `cfg`; absent flags
    /// leave the defaults untouched.
    pub fn apply(self, cfg: &mut Config)
        ensures
            ({
                let was = old(cfg).provider;
                let now = final(cfg).provider;
                &&& now.texture_url@ == given(self.texture_url, was.texture_url@)
                &&& now.heightmap_url@ == given(self.heightmap_url, was.heightmap_url@)
                &&& now.normals_url@ == given(self.normals_url, was.normals_url@)
                &&& now.texture_max_zoom == given_zoom(self.texture_max_zoom, was.texture_max_zoom)
                &&& now.heightmap_max_zoom == given_zoom(
                    self.heightmap_max_zoom,
                    was.heightmap_max_zoom,
                )
                &&& now.normals_max_zoom == given_zoom(self.normals_max_zoom, was.normals_max_zoom)
                &&& now.imagery_attribution == was.imagery_attribution
                &&& now.elevation_attribution == was.elevation_attribution
            }),
            final(cfg).read_timeout == Timeout::of_secs(self.timeout_s),
            final(cfg).include_normals == !self.no_normals,
            final(cfg).cache == old(cfg).cache,
            final(cfg).resolution == old(cfg).resolution,
            final(cfg).connect_timeout == old(cfg).connect_timeout,
            final(cfg).jpeg_quality == old(cfg).jpeg_quality,
    {
        cfg.read_timeout = Timeout::from_secs(self.timeout_s);
        if let Some(u) = self.texture_url {
            cfg.provider.texture_url = u;
        }
        if let Some(u) = self.heightmap_url {
            cfg.provider.heightmap_url = u;
        }
        if let Some(u) = self.normals_url {
            cfg.provider.normals_url = u;
        }
        if let Some(z) = self.texture_max_zoom {
            cfg.provider.texture_max_zoom = z;
        }
        if let Some(z) = self.heightmap_max_zoom {
            cfg.provider.heightmap_max_zoom = z;
        }
        if let Some(z) = self.normals_max_zoom {
            cfg.provider.normals_max_zoom = z;
        }
        cfg.include_normals = !self.no_normals;
    }
}

/// The exit code for a failure.
pub open spec fn exit_code_spec(e: ErrorView) -> i32 {
    match e {
        ErrorView::InvalidTile(_) => 2,
        ErrorView::InvalidResolution(_) => 2,
        ErrorView::NotFound { .. } => 3,
        _ => 4,
    }
}

/// The exit code for a failure.
pub fn exit_code(e: &Error) -> (code: i32)
    ensures
        code == exit_code_spec(e@),
{
    match e {
        Error::InvalidTile(_) => 2,
        Error::InvalidResolution(_) => 2,
        Error::NotFound { .. } => 3,
        Error::Fetch { .. } => 4,
        Error::Decode { .. } => 4,
        Error::Io { .. } => 4,
    }
}

/// What `build` does next.
pub enum BuildStage {
    /// Build the tile.
    Build,
    /// Write these bytes to the output file.
    WriteTile(Vec<u8>),
    /// Compute the metadata document.
    Document,
    /// Write the document next to the output file.
    WriteDocument(Vec<u8>),
    /// Nothing more: this is the exit code.
    Exit(i32),
}

/// A [`BuildStage`] with its bytes as a sequence.
pub enum BuildStageView {
    /// See [`BuildStage::Build`].
    Build,
    /// See [`BuildStage::WriteTile`].
    WriteTile(Seq<u8>),
    /// See [`BuildStage::Document`].
    Document,
    /// See [`BuildStage::WriteDocument`].
    WriteDocument(Seq<u8>),
    /// See [`BuildStage::Exit`].
    Exit(i32),
}

impl View for BuildStage {
    type V = BuildStageView;

    open spec fn view(&self) -> BuildStageView {
        match *self {
            BuildStage::Build => BuildStageView::Build,
            BuildStage::WriteTile(b) => BuildStageView::WriteTile(b@),
            BuildStage::Document => BuildStageView::Document,
            BuildStage::WriteDocument(b) => BuildStageView::WriteDocument(b@),
            BuildStage::Exit(code) => BuildStageView::Exit(code),
        }
    }
}

/// After building: a tile is written, a failure ends the command.
pub open spec fn after_built(reply: Result<Seq<u8>, ErrorView>) -> BuildStageView {
    match reply {
        Ok(bytes) => BuildStageView::WriteTile(bytes),
        Err(e) => BuildStageView::Exit(exit_code_spec(e)),
    }
}

/// After writing the tile.
pub open spec fn after_tile_written(written: bool) -> BuildStageView {
    if written {
        BuildStageView::Document
    } else {
        BuildStageView::Exit(4)
    }
}

/// After computing the document: a failure leaves only the tile.
pub open spec fn after_document(reply: Result<Seq<u8>, ErrorView>) -> BuildStageView {
    match reply {
        Ok(bytes) => BuildStageView::WriteDocument(bytes),
        Err(_) => BuildStageView::Exit(0),
    }
}

/// Start `build`.
pub fn build() -> (s: BuildStage)
    ensures
        s@ == BuildStageView::Build,
{
    BuildStage::Build
}

impl BuildStage {
    /// The build ended.
    pub fn on_built(self, reply: Result<Vec<u8>, Error>) -> (s: BuildStage)
        requires
            self is Build,
        ensures
            s@ == after_built(crate::error::bytes_view(reply)),
    {
        match reply {
            Ok(bytes) => BuildStage::WriteTile(bytes),
            Err(e) => BuildStage::Exit(exit_code(&e)),
        }
    }

    /// The output file was written, or not.
    pub fn on_tile_written(self, written: bool) -> (s: BuildStage)
        requires
            self is WriteTile,
        ensures
            s@ == after_tile_written(written),
    {
        if written {
            BuildStage::Document
        } else {
            BuildStage::Exit(4)
        }
    }

    /// The document was computed, or failed to be.
    pub fn on_document(self, reply: Result<Vec<u8>, Error>) -> (s: BuildStage)
        requires
            self is Document,
        ensures
            s@ == after_document(crate::error::bytes_view(reply)),
    {
        match reply {
            Ok(bytes) => BuildStage::WriteDocument(bytes),
            Err(_) => BuildStage::Exit(0),
        }
    }

    /// The document was written, or not: the build itself succeeded.
    pub fn on_document_written(self) -> (s: BuildStage)
        requires
            self is WriteDocument,
        ensures
            s@ == BuildStageView::Exit(0),
    {
        BuildStage::Exit(0)
    }
}

/// The exit code of `build` carried out from `stage` on: the tile comes to
/// `tile`, its file is written or not, and the document comes to `document`.
/// Whether the document's file is written makes no difference.
pub open spec fn build_code(
    stage: BuildStageView,
    tile: Result<Seq<u8>, ErrorView>,
    written: bool,
    document: Result<Seq<u8>, ErrorView>,
) -> i32
    decreases build_rank(stage),
{
    match stage {
        BuildStageView::Build => build_code(after_built(tile), tile, written, document),
        BuildStageView::WriteTile(_) => build_code(
            after_tile_written(written),
            tile,
            written,
            document,
        ),
        BuildStageView::Document => build_code(after_document(document), tile, written, document),
        BuildStageView::WriteDocument(_) => 0,
        BuildStageView::Exit(code) => code,
    }
}

/// How many steps a stage is from the end.
pub open spec fn build_rank(stage: BuildStageView) -> nat {
    match stage {
        BuildStageView::Build => 4,
        BuildStageView::WriteTile(_) => 3,
        BuildStageView::Document => 2,
        BuildStageView::WriteDocument(_) => 1,
        BuildStageView::Exit(_) => 0,
    }
}

/// A metadata failure never fails a build: `build` exits with 0 exactly when
/// the tile was built and its file written, with 4 when the file was not, and
/// with the failure's own code when the tile was not built.
pub proof fn law_metadata_never_fails_a_build(
    tile: Result<Seq<u8>, ErrorView>,
    written: bool,
    document: Result<Seq<u8>, ErrorView>,
)
    ensures
        build_code(BuildStageView::Build, tile, written, document) == match tile {
            Ok(_) => if written {
                0i32
            } else {
                4i32
            },
            Err(e) => exit_code_spec(e),
        },
        build_code(BuildStageView::Build, tile, written, document) == 0 <==> tile is Ok && written,
{
    reveal_with_fuel(build_code, 5);
}

/// Where `build` writes unless told otherwise: `{zoom}-{x}-{y}.glb`.
pub fn output_name(tile: TileId) -> (out: String)
    ensures
        out@ == text::decimal_text(tile.zoom as nat) + "-"@ + text::decimal_text(tile.x as nat)
            + "-"@ + text::decimal_text(tile.y as nat) + ".glb"@,
{
    let z: String = text::decimal(tile.zoom as u64);
    let x: String = text::decimal(tile.x as u64);
    let y: String = text::decimal(tile.y as u64);
    let mut out: String = text::join3(z.as_str(), "-", x.as_str());
    out.append("-");
    out.append(y.as_str());
    out.append(".glb");
    out
}

/// The line `metadata` ends with.
pub fn metadata_line(s: Summary) -> (out: String)
    ensures
        out@ == "metadata: "@ + text::decimal_text(s.written as nat) + " written, "@
            + text::decimal_text(s.skipped as nat) + " skipped, "@ + text::decimal_text(
            s.failed as nat,
        ) + " failed"@,
{
    let w: String = text::decimal(s.written as u64);
    let k: String = text::decimal(s.skipped as u64);
    let f: String = text::decimal(s.failed as u64);
    let mut out: String = text::join3("metadata: ", w.as_str(), " written, ");
    out.append(k.as_str());
    out.append(" skipped, ");
    out.append(f.as_str());
    out.append(" failed");
    out
}

/// The exit code of `metadata`: 4 when any tile failed.
pub fn metadata_code(s: Summary) -> (code: i32)
    ensures
        code == if s.failed > 0 {
            4int
        } else {
            0int
        },
{
    if s.failed > 0 {
        4
    } else {
        0
    }
}

/// The line `refresh-404` ends with.
pub fn removed_line(n: usize) -> (out: String)
    ensures
        out@ == "removed "@ + text::decimal_text(n as nat) + " markers"@,
{
    let n: String = text::decimal(n as u64);
    text::join3("removed ", n.as_str(), " markers")
}

/// Concurrent builds: as many as asked for, and at least one.
pub fn max_builds(asked: usize) -> (n: usize)
    ensures
        n == if asked >= 1 {
            asked as int
        } else {
            1
        },
{
    if asked >= 1 {
        asked
    } else {
        1
    }
}

/// A failure's exit code tells its kind: 2 for what was asked for wrongly, 3
/// where no provider has anything, 4 for everything else; none is 0.
pub proof fn law_exit_codes_tell_the_failure(e: ErrorView)
    ensures
        exit_code_spec(e) == 2 <==> e is InvalidTile || e is InvalidResolution,
        exit_code_spec(e) == 3 <==> e is NotFound,
        exit_code_spec(e) == 4 <==> e is Fetch || e is Decode || e is Io,
{
}

/// What is built is what is written: the tile's bytes go to its file and the
/// document's to its own, each only once it is there.
pub proof fn law_builds_write_what_was_built(
    tile: Seq<u8>,
    document: Seq<u8>,
    e: ErrorView,
)
    ensures
        after_built(Ok(tile)) == BuildStageView::WriteTile(tile),
        after_built(Err(e)) == BuildStageView::Exit(exit_code_spec(e)),
        after_tile_written(true) is Document,
        after_document(Ok(document)) == BuildStageView::WriteDocument(document),
{
}

/// A flag that was given is what counts; without it the setting stays.
pub proof fn law_flags_override_settings(
    flag: Option<String>,
    setting: Seq<char>,
    zoom: Option<u8>,
    deepest: u8,
)
    ensures
        flag is Some ==> given(flag, setting) == flag->0@,
        flag is None ==> given(flag, setting) == setting,
        zoom is Some ==> given_zoom(zoom, deepest) == zoom->0,
        zoom is None ==> given_zoom(zoom, deepest) == deepest,
{
}

} // verus!
