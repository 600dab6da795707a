//! Tile providers: URL templates with `:zoom:` / `:x:` / `:y:` tokens.

use crate::text;
use crate::tile::TileId;
use vstd::prelude::*;

verus! {

/// Credit for the default imagery.
pub const DEFAULT_IMAGERY_ATTRIBUTION: &'static str = "Esri World Imagery";

/// Credit for the default heightmaps.
pub const DEFAULT_ELEVATION_ATTRIBUTION: &'static str =
    "Mapzen Terrain Tiles (Terrarium) on AWS Open Data";

/// Where the raw inputs come from.
#[derive(Clone, Debug)]
pub struct Provider {
    /// Imagery URL template. Esri's default is `zoom/y/x` order — that swap
    /// is intentional, it is how Esri encodes its URLs.
    pub texture_url: String,
    /// Terrarium heightmap URL template (`zoom/x/y`).
    pub heightmap_url: String,
    /// Normal-map URL template (`zoom/x/y`).
    pub normals_url: String,
    /// Deepest zoom to ask the imagery provider for.
    pub texture_max_zoom: u8,
    /// Deepest zoom to ask the heightmap provider for.
    pub heightmap_max_zoom: u8,
    /// Deepest zoom to ask the normal-map provider for.
    pub normals_max_zoom: u8,
    /// Attribution strings recorded in the GLB `extras`.
    pub imagery_attribution: String,
    /// See `imagery_attribution`.
    pub elevation_attribution: String,
}

impl Provider {
    /// Esri imagery; Terrarium heightmaps and normal maps on AWS.
    pub open spec fn is_default(self) -> bool {
        &&& self.texture_url@
            == "https://server.arcgisonline.com/ArcGIS/rest/services/World_Imagery/MapServer/tile/:zoom:/:y:/:x:"@
        &&& self.heightmap_url@
            == "https://s3.amazonaws.com/elevation-tiles-prod/terrarium/:zoom:/:x:/:y:.png"@
        &&& self.normals_url@
            == "https://s3.amazonaws.com/elevation-tiles-prod/normal/:zoom:/:x:/:y:.png"@
        &&& self.texture_max_zoom == 19
        &&& self.heightmap_max_zoom == 15
        &&& self.normals_max_zoom == 15
        &&& self.imagery_attribution@ == "Esri World Imagery"@
        &&& self.elevation_attribution@ == "Mapzen Terrain Tiles (Terrarium) on AWS Open Data"@
    }
}

impl Default for Provider {
    fn default() -> (p: Provider)
        ensures
            p.is_default(),
    {
        Provider {
            texture_url:
                "https://server.arcgisonline.com/ArcGIS/rest/services/World_Imagery/MapServer/tile/:zoom:/:y:/:x:".to_owned(),
            heightmap_url:
                "https://s3.amazonaws.com/elevation-tiles-prod/terrarium/:zoom:/:x:/:y:.png".to_owned(),
            normals_url:
                "https://s3.amazonaws.com/elevation-tiles-prod/normal/:zoom:/:x:/:y:.png".to_owned(),
            texture_max_zoom: 19,
            heightmap_max_zoom: 15,
            normals_max_zoom: 15,
            imagery_attribution: DEFAULT_IMAGERY_ATTRIBUTION.to_owned(),
            elevation_attribution: DEFAULT_ELEVATION_ATTRIBUTION.to_owned(),
        }
    }
}

/// Which raw asset.
#[derive(Clone, Copy, Debug, PartialEq, Eq, Structural)]
pub enum Kind {
    /// Satellite imagery (JPEG or PNG).
    Texture,
    /// Terrarium-encoded heightmap (PNG).
    Heightmap,
    /// Normal map (PNG).
    Normals,
}

impl Kind {
    /// Cache sub-directory name.
    pub open spec fn dir_spec(self) -> Seq<char> {
        match self {
            Kind::Texture => "texture"@,
            Kind::Heightmap => "heightmap"@,
            Kind::Normals => "normals"@,
        }
    }

    /// The asset as logs and messages call it.
    pub open spec fn name_spec(self) -> Seq<char> {
        match self {
            Kind::Texture => "imagery"@,
            Kind::Heightmap => "heightmap"@,
            Kind::Normals => "normals"@,
        }
    }

    /// Cache sub-directory name.
    pub fn dir(self) -> (s: &'static str)
        ensures
            s@ == self.dir_spec(),
    {
        match self {
            Kind::Texture => "texture",
            Kind::Heightmap => "heightmap",
            Kind::Normals => "normals",
        }
    }

    /// The asset as logs and messages call it.
    pub fn name(self) -> (s: &'static str)
        ensures
            s@ == self.name_spec(),
    {
        match self {
            Kind::Texture => "imagery",
            Kind::Heightmap => "heightmap",
            Kind::Normals => "normals",
        }
    }
}

/// A template with the first occurrence of each token replaced.
pub open spec fn expanded(template: Seq<char>, tile: TileId) -> Seq<char> {
    let zoomed = text::replaced_first(
        template,
        ":zoom:"@,
        text::decimal_text(tile.zoom as nat),
    );
    let columned = text::replaced_first(zoomed, ":x:"@, text::decimal_text(tile.x as nat));
    text::replaced_first(columned, ":y:"@, text::decimal_text(tile.y as nat))
}

/// Replace the first occurrence of each token.
pub fn expand_url(template: &str, tile: TileId) -> (out: String)
    ensures
        out@ == expanded(template@, tile),
{
    let z: String = text::decimal(tile.zoom as u64);
    let x: String = text::decimal(tile.x as u64);
    let y: String = text::decimal(tile.y as u64);
    let zoomed: String = text::replace_first(template, ":zoom:", z.as_str());
    let columned: String = text::replace_first(zoomed.as_str(), ":x:", x.as_str());
    text::replace_first(columned.as_str(), ":y:", y.as_str())
}

impl Provider {
    /// The URL template of an asset.
    pub open spec fn template(self, kind: Kind) -> Seq<char> {
        match kind {
            Kind::Texture => self.texture_url@,
            Kind::Heightmap => self.heightmap_url@,
            Kind::Normals => self.normals_url@,
        }
    }

    /// Expanded URL for one asset of one tile.
    pub open spec fn url_spec(self, kind: Kind, tile: TileId) -> Seq<char> {
        expanded(self.template(kind), tile)
    }

    /// The deepest zoom to ask the provider of an asset for.
    pub open spec fn hint(self, kind: Kind) -> u8 {
        match kind {
            Kind::Texture => self.texture_max_zoom,
            Kind::Heightmap => self.heightmap_max_zoom,
            Kind::Normals => self.normals_max_zoom,
        }
    }

    /// Expanded URL for one asset of one tile.
    pub fn url(&self, kind: Kind, tile: TileId) -> (out: String)
        ensures
            out@ == self.url_spec(kind, tile),
    {
        match kind {
            Kind::Texture => expand_url(self.texture_url.as_str(), tile),
            Kind::Heightmap => expand_url(self.heightmap_url.as_str(), tile),
            Kind::Normals => expand_url(self.normals_url.as_str(), tile),
        }
    }

    /// The deepest zoom to ask the provider of an asset for. Deeper tiles
    /// derive from there.
    pub fn max_zoom(&self, kind: Kind) -> (z: u8)
        ensures
            z == self.hint(kind),
    {
        match kind {
            Kind::Texture => self.texture_max_zoom,
            Kind::Heightmap => self.heightmap_max_zoom,
            Kind::Normals => self.normals_max_zoom,
        }
    }
}

// -- laws ------------------------------------------------------------------------

/// No token begins in the text: every colon in it stands before a character
/// that begins no token's name.
pub open spec fn tokenless(s: Seq<char>) -> bool {
    forall|i: int|
        0 <= i < s.len() && #[trigger] s[i] == ':' ==> i + 1 < s.len() && s[i + 1] != 'z' && s[i
            + 1] != 'x' && s[i + 1] != 'y'
}

proof fn lemma_no_token(front: Seq<char>, token: Seq<char>, back: Seq<char>, i: int)
    requires
        tokenless(front),
        token.len() >= 2,
        token[0] == ':',
        token[1] == 'z' || token[1] == 'x' || token[1] == 'y',
        0 <= i < front.len(),
    ensures
        !text::occurs_at(front + token + back, token, i),
{
    let s = front + token + back;
    if text::occurs_at(s, token, i) {
        let part = s.subrange(i, i + token.len());
        assert(part[0] == s[i] && part[1] == s[i + 1]);
        assert(front[i] == ':');
        assert(front[i + 1] == s[i + 1]);
    }
}

proof fn lemma_no_colon(n: nat)
    ensures
        !text::decimal_text(n).contains(':'),
{
    text::lemma_decimal_text(n);
    let s = text::decimal_text(n);
    if s.contains(':') {
        let i = choose|i: int| 0 <= i < s.len() && s[i] == ':';
        assert(text::is_digit(s[i]));
    }
}

proof fn lemma_none_in_both(a: Seq<char>, b: Seq<char>)
    requires
        tokenless(a),
        !b.contains(':'),
    ensures
        tokenless(a + b),
{
    let s = a + b;
    assert forall|i: int| 0 <= i < s.len() && #[trigger] s[i] == ':' implies i + 1 < s.len() && s[i
        + 1] != 'z' && s[i + 1] != 'x' && s[i + 1] != 'y' by {
        if i < a.len() {
            assert(a[i] == ':');
            assert(s[i + 1] == a[i + 1]);
        } else {
            assert(b[i - a.len()] == ':');
            assert(b.contains(':'));
        }
    }
}

/// A token that does not stand at `i`, for the character there or the one
/// behind it is another.
proof fn lemma_not_at(s: Seq<char>, token: Seq<char>, i: int)
    requires
        token.len() >= 2,
        0 <= i,
        i + 1 < s.len() ==> s[i] != token[0] || s[i + 1] != token[1],
    ensures
        !text::occurs_at(s, token, i),
{
    if text::occurs_at(s, token, i) {
        let part = s.subrange(i, i + token.len());
        assert(part[0] == s[i] && part[1] == s[i + 1]);
    }
}

/// The tile's numbers stand where the template's tokens stood: zoom for
/// `:zoom:`, column for `:x:`, row for `:y:`, everything between them as it
/// was.
pub proof fn law_tokens_become_the_address(
    a: Seq<char>,
    b: Seq<char>,
    c: Seq<char>,
    d: Seq<char>,
    tile: TileId,
)
    requires
        tokenless(a),
        !b.contains(':'),
        !c.contains(':'),
    ensures
        expanded(a + ":zoom:"@ + b + ":x:"@ + c + ":y:"@ + d, tile) == a + text::decimal_text(
            tile.zoom as nat,
        ) + b + text::decimal_text(tile.x as nat) + c + text::decimal_text(tile.y as nat) + d,
{
    reveal_strlit(":zoom:");
    reveal_strlit(":x:");
    reveal_strlit(":y:");
    let (zt, xt, yt) = (":zoom:"@, ":x:"@, ":y:"@);
    let z = text::decimal_text(tile.zoom as nat);
    let x = text::decimal_text(tile.x as nat);
    let y = text::decimal_text(tile.y as nat);
    lemma_no_colon(tile.zoom as nat);
    lemma_no_colon(tile.x as nat);
    lemma_no_colon(tile.y as nat);
    let r1 = b + xt + c + yt + d;
    assert forall|i: int| 0 <= i < a.len() implies !#[trigger] text::occurs_at(
        a + zt + r1,
        zt,
        i,
    ) by {
        lemma_no_token(a, zt, r1, i);
    }
    text::law_first_occurrence_is_replaced(a, zt, r1, z);
    assert(a + zt + b + xt + c + yt + d =~= a + zt + r1);
    let f2 = a + z + b;
    let r2 = c + yt + d;
    lemma_none_in_both(a, z);
    lemma_none_in_both(a + z, b);
    assert(a + z + r1 =~= f2 + xt + r2);
    assert forall|i: int| 0 <= i < f2.len() implies !#[trigger] text::occurs_at(
        f2 + xt + r2,
        xt,
        i,
    ) by {
        lemma_no_token(f2, xt, r2, i);
    }
    text::law_first_occurrence_is_replaced(f2, xt, r2, x);
    let f3 = f2 + x + c;
    lemma_none_in_both(f2, x);
    lemma_none_in_both(f2 + x, c);
    assert(f2 + x + r2 =~= f3 + yt + d);
    assert forall|i: int| 0 <= i < f3.len() implies !#[trigger] text::occurs_at(
        f3 + yt + d,
        yt,
        i,
    ) by {
        lemma_no_token(f3, yt, d, i);
    }
    text::law_first_occurrence_is_replaced(f3, yt, d, y);
    assert(f3 + y + d =~= a + z + b + x + c + y + d);
}

/// So they do where the row comes before the column, as in imagery URLs. A
/// lone `x` between the two would itself read as the column's token.
pub proof fn law_tokens_become_the_address_row_first(
    a: Seq<char>,
    b: Seq<char>,
    c: Seq<char>,
    d: Seq<char>,
    tile: TileId,
)
    requires
        tokenless(a),
        !b.contains(':'),
        !c.contains(':'),
        c != seq!['x'],
    ensures
        expanded(a + ":zoom:"@ + b + ":y:"@ + c + ":x:"@ + d, tile) == a + text::decimal_text(
            tile.zoom as nat,
        ) + b + text::decimal_text(tile.y as nat) + c + text::decimal_text(tile.x as nat) + d,
{
    reveal_strlit(":zoom:");
    reveal_strlit(":x:");
    reveal_strlit(":y:");
    let (zt, xt, yt) = (":zoom:"@, ":x:"@, ":y:"@);
    let z = text::decimal_text(tile.zoom as nat);
    let x = text::decimal_text(tile.x as nat);
    let y = text::decimal_text(tile.y as nat);
    lemma_no_colon(tile.zoom as nat);
    lemma_no_colon(tile.x as nat);
    lemma_no_colon(tile.y as nat);
    let r1 = b + yt + c + xt + d;
    assert forall|i: int| 0 <= i < a.len() implies !#[trigger] text::occurs_at(
        a + zt + r1,
        zt,
        i,
    ) by {
        lemma_no_token(a, zt, r1, i);
    }
    text::law_first_occurrence_is_replaced(a, zt, r1, z);
    assert(a + zt + b + yt + c + xt + d =~= a + zt + r1);
    let f2 = a + z + b;
    lemma_none_in_both(a, z);
    lemma_none_in_both(a + z, b);
    let f3 = f2 + yt + c;
    assert(a + z + r1 =~= f3 + xt + d);
    let whole = f3 + xt + d;
    assert forall|i: int| 0 <= i < f3.len() implies !#[trigger] text::occurs_at(
        whole,
        xt,
        i,
    ) by {
        lemma_not_in_front(f2, c, d, i);
    }
    text::law_first_occurrence_is_replaced(f3, xt, d, x);
    let r3 = c + x + d;
    assert(f3 + x + d =~= f2 + yt + r3);
    assert forall|i: int| 0 <= i < f2.len() implies !#[trigger] text::occurs_at(
        f2 + yt + r3,
        yt,
        i,
    ) by {
        lemma_no_token(f2, yt, r3, i);
    }
    text::law_first_occurrence_is_replaced(f2, yt, r3, y);
    assert(f2 + y + r3 =~= a + z + b + y + c + x + d);
}

proof fn lemma_not_in_front(f: Seq<char>, c: Seq<char>, d: Seq<char>, i: int)
    requires
        tokenless(f),
        !c.contains(':'),
        c != seq!['x'],
        0 <= i < (f + ":y:"@ + c).len(),
    ensures
        !text::occurs_at(f + ":y:"@ + c + ":x:"@ + d, ":x:"@, i),
{
    reveal_strlit(":x:");
    reveal_strlit(":y:");
    let s = f + ":y:"@ + c + ":x:"@ + d;
    let n = f.len() as int;
    if i < n {
        assert(s[i] == f[i]);
        if f[i] == ':' {
            assert(s[i + 1] == f[i + 1]);
        }
    } else if i == n {
        assert(s[i + 1] == 'y');
    } else if i == n + 1 {
        assert(s[i] == 'y');
    } else if i == n + 2 {
        if text::occurs_at(s, ":x:"@, i) {
            let part = s.subrange(i, i + 3);
            assert(part == ":x:"@);
            assert(part[1] == s[i + 1] && part[2] == s[i + 2]);
            if c.len() >= 2 {
                assert(c[1] == ':');
                assert(c.contains(':'));
            } else if c.len() == 1 {
                assert(c =~= seq!['x']);
            } else {
                assert(s[i + 1] == ':');
            }
        }
    } else {
        assert(s[i] == c[i - n - 3]);
        assert(c.contains(c[i - n - 3]));
    }
    if i != n + 2 {
        lemma_not_at(s, ":x:"@, i);
    }
}

/// By default imagery is asked of Esri's World Imagery, whose URLs name the
/// row before the column, and heightmaps and normal maps of the elevation
/// tiles on AWS; down to zoom 19, 15 and 15.
pub proof fn law_default_urls(p: Provider, tile: TileId)
    requires
        p.is_default(),
    ensures
        ({
            let z = text::decimal_text(tile.zoom as nat);
            let x = text::decimal_text(tile.x as nat);
            let y = text::decimal_text(tile.y as nat);
            &&& p.url_spec(Kind::Texture, tile)
                == "https://server.arcgisonline.com/ArcGIS/rest/services/World_Imagery/MapServer/tile/"@
                + z + "/"@ + y + "/"@ + x
            &&& p.url_spec(Kind::Heightmap, tile)
                == "https://s3.amazonaws.com/elevation-tiles-prod/terrarium/"@ + z + "/"@ + x
                + "/"@ + y + ".png"@
            &&& p.url_spec(Kind::Normals, tile)
                == "https://s3.amazonaws.com/elevation-tiles-prod/normal/"@ + z + "/"@ + x + "/"@
                + y + ".png"@
            &&& p.hint(Kind::Texture) == 19
            &&& p.hint(Kind::Heightmap) == 15
            &&& p.hint(Kind::Normals) == 15
            &&& p.imagery_attribution@ == "Esri World Imagery"@
            &&& p.elevation_attribution@ == "Mapzen Terrain Tiles (Terrarium) on AWS Open Data"@
        }),
{
    reveal_strlit("/");
    reveal_strlit(".png");
    reveal_strlit(":zoom:");
    reveal_strlit(":x:");
    reveal_strlit(":y:");
    reveal_strlit(
        "https://server.arcgisonline.com/ArcGIS/rest/services/World_Imagery/MapServer/tile/",
    );
    reveal_strlit(
        "https://server.arcgisonline.com/ArcGIS/rest/services/World_Imagery/MapServer/tile/:zoom:/:y:/:x:",
    );
    reveal_strlit("https://s3.amazonaws.com/elevation-tiles-prod/terrarium/");
    reveal_strlit("https://s3.amazonaws.com/elevation-tiles-prod/terrarium/:zoom:/:x:/:y:.png");
    reveal_strlit("https://s3.amazonaws.com/elevation-tiles-prod/normal/");
    reveal_strlit("https://s3.amazonaws.com/elevation-tiles-prod/normal/:zoom:/:x:/:y:.png");
    let none = Seq::<char>::empty();
    let slash = "/"@;
    assert(!slash.contains(':'));
    assert(slash.len() == 1 && slash[0] == '/');
    let esri =
        "https://server.arcgisonline.com/ArcGIS/rest/services/World_Imagery/MapServer/tile/"@;
    let heights = "https://s3.amazonaws.com/elevation-tiles-prod/terrarium/"@;
    let normals = "https://s3.amazonaws.com/elevation-tiles-prod/normal/"@;
    let (zt, xt, yt) = (":zoom:"@, ":x:"@, ":y:"@);
    law_tokens_become_the_address_row_first(esri, slash, slash, none, tile);
    law_tokens_become_the_address(heights, slash, slash, ".png"@, tile);
    law_tokens_become_the_address(normals, slash, slash, ".png"@, tile);
    assert(p.texture_url@ =~= esri + zt + slash + yt + slash + xt + none);
    assert(p.heightmap_url@ =~= heights + zt + slash + xt + slash + yt + ".png"@);
    assert(p.normals_url@ =~= normals + zt + slash + xt + slash + yt + ".png"@);
    let z = text::decimal_text(tile.zoom as nat);
    let x = text::decimal_text(tile.x as nat);
    let y = text::decimal_text(tile.y as nat);
    assert(esri + z + slash + y + slash + x + none =~= esri + z + slash + y + slash + x);
}

/// Each asset is asked for by its own template, down to its own zoom.
pub proof fn law_assets_have_their_own_source(p: Provider, tile: TileId)
    ensures
        p.url_spec(Kind::Texture, tile) == expanded(p.texture_url@, tile),
        p.url_spec(Kind::Heightmap, tile) == expanded(p.heightmap_url@, tile),
        p.url_spec(Kind::Normals, tile) == expanded(p.normals_url@, tile),
        p.hint(Kind::Texture) == p.texture_max_zoom,
        p.hint(Kind::Heightmap) == p.heightmap_max_zoom,
        p.hint(Kind::Normals) == p.normals_max_zoom,
{
}

} // verus!
