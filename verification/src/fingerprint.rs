//! The fingerprint of a configuration: a hash of everything in it that
//! changes the bytes of a tile — the version, the resolution table, the
//! provider URLs and zoom hints, the JPEG quality, and the attributions. It
//! names the output-cache directory and prefixes ETags, so a change of any of
//! these never serves a stale tile.

use crate::builder;
use crate::builder::{Config, Measures, TileInputs};
use crate::bytes;
use crate::mesh::ZOOM_LEVELS;
use crate::provider::{
    Kind, Provider, DEFAULT_ELEVATION_ATTRIBUTION, DEFAULT_IMAGERY_ATTRIBUTION,
};
use crate::text;
use crate::tile::TileId;
use vstd::prelude::*;
use vstd::utf8::encode_utf8;

verus! {

/// The 64 hexadecimal digits of the BLAKE3 hash of `input`.
pub uninterp spec fn blake3_hex(input: Seq<u8>) -> Seq<char>;

/// A lowercase hexadecimal digit.
pub open spec fn is_hex(c: char) -> bool {
    '0' <= c <= '9' || 'a' <= c <= 'f'
}

/// `blake3::hash`, as `Hash::to_hex` writes it: 64 lowercase hexadecimal
/// digits, which depend on the input alone.
#[verifier::external_body]
fn hash_hex(input: &[u8]) -> (out: String)
    ensures
        out@ == blake3_hex(input@),
        out@.len() == 64,
        forall|i: int| 0 <= i < 64 ==> is_hex(#[trigger] out@[i]),
{
    blake3::hash(input).to_hex().to_string()
}

/// A resolution table as bytes.
pub open spec fn table_bytes(table: Seq<u32>) -> Seq<u8> {
    bytes::le32_words(table)
}

/// A string as bytes, closed off by a zero byte.
pub open spec fn zero_ended(s: Seq<char>) -> Seq<u8> {
    encode_utf8(s).push(0)
}

/// A string as bytes, behind how many they are: the count in decimal, closed
/// off by a zero byte.
pub open spec fn counted(s: Seq<char>) -> Seq<u8> {
    zero_ended(text::decimal_text(encode_utf8(s).len())) + encode_utf8(s)
}

/// The attributions are other than the default ones.
pub open spec fn own_credits(p: Provider) -> bool {
    p.imagery_attribution@ != DEFAULT_IMAGERY_ATTRIBUTION@ || p.elevation_attribution@
        != DEFAULT_ELEVATION_ATTRIBUTION@
}

/// Which further settings are hashed: attributions of one's own, normals.
pub open spec fn further(cfg: Config) -> u8 {
    match (own_credits(cfg.provider), cfg.include_normals) {
        (false, false) => 0,
        (false, true) => 1,
        (true, false) => 2,
        (true, true) => 3,
    }
}

/// The further settings as bytes: which they are, then the attributions where
/// they are not the default ones, then the normal maps' source where the mesh
/// has normals. Nothing where there are none.
pub open spec fn further_bytes(cfg: Config) -> Seq<u8> {
    let p = cfg.provider;
    if further(cfg) == 0 {
        Seq::empty()
    } else {
        let credits = if own_credits(p) {
            counted(p.imagery_attribution@) + counted(p.elevation_attribution@)
        } else {
            Seq::empty()
        };
        let normals = if cfg.include_normals {
            zero_ended(p.normals_url@) + seq![p.normals_max_zoom]
        } else {
            Seq::empty()
        };
        seq![further(cfg)] + credits + normals
    }
}

/// What is hashed: the version, the resolution table, the imagery and
/// heightmap URLs and zoom hints, the JPEG quality, and the further settings.
pub open spec fn preimage(cfg: Config) -> Seq<u8> {
    let p = cfg.provider;
    encode_utf8("0.1.0"@) + table_bytes(cfg.resolution@) + zero_ended(p.texture_url@) + zero_ended(
        p.heightmap_url@,
    ) + seq![p.texture_max_zoom, p.heightmap_max_zoom, cfg.jpeg_quality] + further_bytes(cfg)
}

/// The first 16 hexadecimal digits of the hash of the preimage.
pub open spec fn fingerprint_spec(cfg: Config) -> Seq<char> {
    blake3_hex(preimage(cfg)).take(16)
}

fn push_zero_ended(out: &mut Vec<u8>, s: &str)
    ensures
        final(out)@ == old(out)@ + zero_ended(s@),
{
    let ghost before = out@;
    bytes::extend(out, s.as_bytes());
    out.push(0);
    assert(out@ =~= before + zero_ended(s@));
}

fn push_counted(out: &mut Vec<u8>, s: &str)
    ensures
        final(out)@ == old(out)@ + counted(s@),
{
    let ghost before = out@;
    let bytes: &[u8] = s.as_bytes();
    let count: String = text::decimal(bytes.len() as u64);
    push_zero_ended(out, count.as_str());
    bytes::extend(out, bytes);
    assert(out@ =~= before + counted(s@));
}

/// The bytes that are hashed.
pub fn fingerprint_input(cfg: &Config) -> (out: Vec<u8>)
    ensures
        out@ == preimage(*cfg),
{
    let mut out: Vec<u8> = Vec::new();
    bytes::extend(&mut out, "0.1.0".as_bytes());
    let mut table: Vec<u32> = Vec::new();
    let mut k: usize = 0;
    while k < ZOOM_LEVELS
        invariant
            k <= ZOOM_LEVELS,
            table@ == cfg.resolution@.take(k as int),
        decreases ZOOM_LEVELS - k,
    {
        table.push(cfg.resolution[k]);
        k = k + 1;
        assert(table@ =~= cfg.resolution@.take(k as int));
    }
    assert(table@ =~= cfg.resolution@);
    let words: Vec<u8> = bytes::words32(&table);
    bytes::extend(&mut out, words.as_slice());
    push_zero_ended(&mut out, cfg.provider.texture_url.as_str());
    push_zero_ended(&mut out, cfg.provider.heightmap_url.as_str());
    out.push(cfg.provider.texture_max_zoom);
    out.push(cfg.provider.heightmap_max_zoom);
    out.push(cfg.jpeg_quality);
    push_further(&mut out, cfg);
    assert(out@ =~= preimage(*cfg));
    out
}

fn push_further(out: &mut Vec<u8>, cfg: &Config)
    ensures
        final(out)@ == old(out)@ + further_bytes(*cfg),
{
    let ghost before = out@;
    let p: &Provider = &cfg.provider;
    let credits: bool = !text::same(p.imagery_attribution.as_str(), DEFAULT_IMAGERY_ATTRIBUTION)
        || !text::same(p.elevation_attribution.as_str(), DEFAULT_ELEVATION_ATTRIBUTION);
    let kinds: u8 = match (credits, cfg.include_normals) {
        (false, false) => 0,
        (false, true) => 1,
        (true, false) => 2,
        (true, true) => 3,
    };
    if kinds != 0 {
        out.push(kinds);
        if credits {
            push_counted(out, p.imagery_attribution.as_str());
            push_counted(out, p.elevation_attribution.as_str());
        }
        if cfg.include_normals {
            push_zero_ended(out, p.normals_url.as_str());
            out.push(p.normals_max_zoom);
        }
    }
    assert(out@ =~= before + further_bytes(*cfg));
}

/// Hash of the configuration; names the output-cache directory and prefixes
/// ETags.
pub fn fingerprint(cfg: &Config) -> (out: String)
    ensures
        out@ == fingerprint_spec(*cfg),
        out@.len() == 16,
        forall|i: int| 0 <= i < 16 ==> is_hex(#[trigger] out@[i]),
{
    let input: Vec<u8> = fingerprint_input(cfg);
    let hex: String = hash_hex(input.as_slice());
    let chars: Vec<char> = text::chars_of(hex.as_str());
    let out: String = text::string_of(&chars, 0, 16);
    assert(out@ =~= blake3_hex(preimage(*cfg)).take(16));
    out
}

// -- laws ------------------------------------------------------------------------

/// A text holds no NUL character.
pub open spec fn no_nul(s: Seq<char>) -> bool {
    !s.contains('\0')
}

/// Everything that the fingerprint covers is the same.
pub open spec fn same_covered(a: Config, b: Config) -> bool {
    &&& a.resolution@ == b.resolution@
    &&& a.provider.texture_url@ == b.provider.texture_url@
    &&& a.provider.heightmap_url@ == b.provider.heightmap_url@
    &&& a.provider.texture_max_zoom == b.provider.texture_max_zoom
    &&& a.provider.heightmap_max_zoom == b.provider.heightmap_max_zoom
    &&& a.jpeg_quality == b.jpeg_quality
    &&& a.provider.imagery_attribution@ == b.provider.imagery_attribution@
    &&& a.provider.elevation_attribution@ == b.provider.elevation_attribution@
    &&& a.include_normals == b.include_normals
    &&& a.include_normals ==> a.provider.normals_url@ == b.provider.normals_url@
        && a.provider.normals_max_zoom == b.provider.normals_max_zoom
}

proof fn lemma_continuation(v: u32)
    by (bit_vector)
    ensures
        0x80u8 | (v & 0x3F) as u8 != 0,
        0x80u8 | ((v >> 6) & 0x3F) as u8 != 0,
        0x80u8 | ((v >> 12) & 0x3F) as u8 != 0,
        0xC0u8 | ((v >> 6) & 0x1F) as u8 != 0,
        0xE0u8 | ((v >> 12) & 0x0F) as u8 != 0,
        0xF0u8 | ((v >> 18) & 0x7) as u8 != 0,
        0 < v <= 0x7F ==> (v & 0x7F) as u8 != 0,
{
}

proof fn lemma_no_zero_byte(s: Seq<char>)
    requires
        no_nul(s),
    ensures
        forall|i: int| 0 <= i < encode_utf8(s).len() ==> #[trigger] encode_utf8(s)[i] != 0,
    decreases s.len(),
{
    if s.len() > 0 {
        let v = s[0] as u32;
        assert(v != 0) by {
            if v == 0 {
                vstd::utf8::char_u32_cast(s[0], v);
                vstd::utf8::char_u32_cast('\0', '\0' as u32);
                assert(s[0] == '\0');
                assert(s.contains('\0'));
            }
        }
        let rest = s.drop_first();
        assert(no_nul(rest)) by {
            if rest.contains('\0') {
                let i = choose|i: int| 0 <= i < rest.len() && rest[i] == '\0';
                assert(s[i + 1] == '\0');
            }
        }
        lemma_no_zero_byte(rest);
        lemma_continuation(v);
        let head = vstd::utf8::encode_scalar(v);
        assert forall|i: int| 0 <= i < head.len() implies head[i] != 0 by {}
        let all = encode_utf8(s);
        assert(all =~= head + encode_utf8(rest));
        assert forall|i: int| 0 <= i < all.len() implies #[trigger] all[i] != 0 by {
            if i >= head.len() {
                assert(all[i] == encode_utf8(rest)[i - head.len()]);
            }
        }
    }
}

/// A zero-ended string can be told from what follows it.
proof fn lemma_zero_ended(a: Seq<char>, b: Seq<char>, x: Seq<u8>, y: Seq<u8>)
    requires
        no_nul(a),
        no_nul(b),
        zero_ended(a) + x == zero_ended(b) + y,
    ensures
        a == b,
        x == y,
{
    let ea = encode_utf8(a);
    let eb = encode_utf8(b);
    lemma_no_zero_byte(a);
    lemma_no_zero_byte(b);
    let whole = zero_ended(a) + x;
    let other = zero_ended(b) + y;
    if ea.len() < eb.len() {
        assert(whole[ea.len() as int] == 0);
        assert(other[ea.len() as int] == eb[ea.len() as int]);
    }
    if eb.len() < ea.len() {
        assert(other[eb.len() as int] == 0);
        assert(whole[eb.len() as int] == ea[eb.len() as int]);
    }
    assert(ea =~= eb) by {
        assert forall|i: int| 0 <= i < ea.len() implies ea[i] == eb[i] by {
            assert(whole[i] == ea[i]);
            assert(other[i] == eb[i]);
        }
    }
    vstd::utf8::encode_utf8_decode_utf8(a);
    vstd::utf8::encode_utf8_decode_utf8(b);
    assert(whole.len() == ea.len() + 1 + x.len() && other.len() == eb.len() + 1 + y.len());
    assert(x =~= y) by {
        assert(whole.len() == other.len());
        assert forall|i: int| 0 <= i < x.len() implies x[i] == y[i] by {
            assert(whole[ea.len() + 1 + i] == x[i]);
            assert(other[ea.len() + 1 + i] == y[i]);
        }
    }
}

/// A counted string can be told from what follows it, whatever it holds.
proof fn lemma_counted(a: Seq<char>, b: Seq<char>, x: Seq<u8>, y: Seq<u8>)
    requires
        counted(a) + x == counted(b) + y,
    ensures
        a == b,
        x == y,
{
    let ea = encode_utf8(a);
    let eb = encode_utf8(b);
    let na = text::decimal_text(ea.len());
    let nb = text::decimal_text(eb.len());
    text::lemma_decimal_text(ea.len());
    text::lemma_decimal_text(eb.len());
    assert(no_nul(na) && no_nul(nb)) by {
        assert(forall|c: char| text::is_digit(c) ==> c != '\0');
    }
    assert(counted(a) + x =~= zero_ended(na) + (ea + x));
    assert(counted(b) + y =~= zero_ended(nb) + (eb + y));
    lemma_zero_ended(na, nb, ea + x, eb + y);
    lemma_same_front(ea, eb, x, y);
    vstd::utf8::encode_utf8_decode_utf8(a);
    vstd::utf8::encode_utf8_decode_utf8(b);
}

proof fn lemma_table(a: Seq<u32>, b: Seq<u32>)
    requires
        a.len() == b.len(),
        table_bytes(a) == table_bytes(b),
    ensures
        a == b,
{
    assert forall|i: int| 0 <= i < a.len() implies a[i] == b[i] by {
        let wa = bytes::le32(a[i] as nat);
        let wb = bytes::le32(b[i] as nat);
        bytes::lemma_le32_len(a[i] as nat);
        bytes::lemma_le32_len(b[i] as nat);
        assert forall|k: int| 0 <= k < 4 implies wa[k] == wb[k] by {
            assert(table_bytes(a)[4 * i + k] == wa[k]);
            assert(table_bytes(b)[4 * i + k] == wb[k]);
        }
        assert(wa =~= wb);
        bytes::lemma_le32_reads_back(a[i] as nat);
        bytes::lemma_le32_reads_back(b[i] as nat);
    }
    assert(a =~= b);
}

proof fn lemma_same_front(a: Seq<u8>, b: Seq<u8>, x: Seq<u8>, y: Seq<u8>)
    requires
        a.len() == b.len(),
        a + x == b + y,
    ensures
        a == b,
        x == y,
{
    let whole = a + x;
    let other = b + y;
    assert(a =~= b) by {
        assert forall|i: int| 0 <= i < a.len() implies a[i] == b[i] by {
            assert(whole[i] == a[i]);
            assert(other[i] == b[i]);
        }
    }
    assert(whole.len() == a.len() + x.len() && other.len() == b.len() + y.len());
    assert(whole.len() == other.len());
    assert(x =~= y) by {
        assert forall|i: int| 0 <= i < x.len() implies x[i] == y[i] by {
            assert(whole[a.len() + i] == x[i]);
            assert(other[a.len() + i] == y[i]);
        }
    }
}

/// What follows the two URLs of the preimage.
spec fn tail(cfg: Config) -> Seq<u8> {
    seq![cfg.provider.texture_max_zoom, cfg.provider.heightmap_max_zoom, cfg.jpeg_quality]
        + further_bytes(cfg)
}

/// Two zero-ended strings with one byte behind are told apart by all of it.
proof fn lemma_last_string(a: Seq<char>, x: u8, b: Seq<char>, y: u8)
    requires
        zero_ended(a) + seq![x] == zero_ended(b) + seq![y],
    ensures
        a == b,
        x == y,
{
    let whole = zero_ended(a) + seq![x];
    let other = zero_ended(b) + seq![y];
    assert(whole.len() == encode_utf8(a).len() + 2 && other.len() == encode_utf8(b).len() + 2);
    lemma_same_front(zero_ended(a), zero_ended(b), seq![x], seq![y]);
    assert(seq![x][0] == seq![y][0]);
    lemma_only_string(a, b);
}

proof fn lemma_only_string(a: Seq<char>, b: Seq<char>)
    requires
        zero_ended(a) == zero_ended(b),
    ensures
        a == b,
{
    assert(zero_ended(a).drop_last() =~= encode_utf8(a));
    assert(zero_ended(b).drop_last() =~= encode_utf8(b));
    vstd::utf8::encode_utf8_decode_utf8(a);
    vstd::utf8::encode_utf8_decode_utf8(b);
}

/// The further settings can be read off their bytes.
proof fn lemma_further(a: Config, b: Config)
    requires
        further_bytes(a) == further_bytes(b),
    ensures
        a.include_normals == b.include_normals,
        a.provider.imagery_attribution@ == b.provider.imagery_attribution@,
        a.provider.elevation_attribution@ == b.provider.elevation_attribution@,
        a.include_normals ==> a.provider.normals_url@ == b.provider.normals_url@
            && a.provider.normals_max_zoom == b.provider.normals_max_zoom,
{
    let pa = a.provider;
    let pb = b.provider;
    assert(further(a) != 0 ==> further_bytes(a).len() > 0 && further_bytes(a)[0] == further(a));
    assert(further(b) != 0 ==> further_bytes(b).len() > 0 && further_bytes(b)[0] == further(b));
    assert(further(a) == further(b));
    if further(a) != 0 {
        let na = if a.include_normals {
            zero_ended(pa.normals_url@) + seq![pa.normals_max_zoom]
        } else {
            Seq::empty()
        };
        let nb = if b.include_normals {
            zero_ended(pb.normals_url@) + seq![pb.normals_max_zoom]
        } else {
            Seq::empty()
        };
        let f = seq![further(a)];
        if own_credits(pa) {
            let ea = counted(pa.elevation_attribution@) + na;
            let eb = counted(pb.elevation_attribution@) + nb;
            let ia = counted(pa.imagery_attribution@) + ea;
            let ib = counted(pb.imagery_attribution@) + eb;
            assert(further_bytes(a) =~= f + ia);
            assert(further_bytes(b) =~= f + ib);
            lemma_same_front(f, f, ia, ib);
            lemma_counted(pa.imagery_attribution@, pb.imagery_attribution@, ea, eb);
            lemma_counted(pa.elevation_attribution@, pb.elevation_attribution@, na, nb);
        } else {
            assert(further_bytes(a) =~= f + na);
            assert(further_bytes(b) =~= f + nb);
            lemma_same_front(f, f, na, nb);
        }
        if a.include_normals {
            lemma_last_string(
                pa.normals_url@,
                pa.normals_max_zoom,
                pb.normals_url@,
                pb.normals_max_zoom,
            );
        }
    }
}

proof fn lemma_preimage_parts(cfg: Config)
    ensures
        preimage(cfg) == encode_utf8("0.1.0"@) + (table_bytes(cfg.resolution@) + (zero_ended(
            cfg.provider.texture_url@,
        ) + (zero_ended(cfg.provider.heightmap_url@) + tail(cfg)))),
{
    assert(preimage(cfg) =~= encode_utf8("0.1.0"@) + (table_bytes(cfg.resolution@) + (zero_ended(
        cfg.provider.texture_url@,
    ) + (zero_ended(cfg.provider.heightmap_url@) + tail(cfg)))));
}

/// Everything in a configuration that changes a tile's bytes is covered: two
/// that agree on what the fingerprint covers ask the providers for the same
/// assets from the same zooms on, encode imagery alike, and record the same
/// `extras` for a mesh of the same resolution.
pub proof fn law_covered_settings_decide_the_bytes(
    a: Config,
    b: Config,
    tile: TileId,
    source_zoom: u8,
    inputs: TileInputs,
    measures: Measures,
)
    requires
        same_covered(a, b),
    ensures
        builder::table_ok(a.resolution@) == builder::table_ok(b.resolution@),
        a.jpeg_quality == b.jpeg_quality,
        a.include_normals == b.include_normals,
        forall|k: Kind|
            k is Normals && !a.include_normals || (#[trigger] a.provider.url_spec(k, tile)
                == b.provider.url_spec(k, tile) && a.provider.hint(k) == b.provider.hint(k)),
        builder::resolution_spec(a, tile, source_zoom) == builder::resolution_spec(
            b,
            tile,
            source_zoom,
        ),
        builder::meta_spec(a, inputs, measures) == builder::meta_spec(b, inputs, measures),
{
}

/// Nothing else enters the fingerprint: the cache's place and the timeouts
/// leave it alone, and so do the normal maps' settings where normals are left
/// out.
pub proof fn law_uncovered_settings_keep_the_fingerprint(a: Config, b: Config)
    requires
        same_covered(a, b),
    ensures
        preimage(a) == preimage(b),
        fingerprint_spec(a) == fingerprint_spec(b),
{
}

/// Two configurations that hash the same bytes agree on everything that the
/// fingerprint covers: no two that differ there share a preimage, whatever
/// their attributions hold. The imagery and heightmap URLs hold no NUL.
pub proof fn law_preimage_tells_configs_apart(a: Config, b: Config)
    requires
        preimage(a) == preimage(b),
        no_nul(a.provider.texture_url@),
        no_nul(a.provider.heightmap_url@),
        no_nul(b.provider.texture_url@),
        no_nul(b.provider.heightmap_url@),
    ensures
        same_covered(a, b),
{
    lemma_preimage_parts(a);
    lemma_preimage_parts(b);
    let pa = a.provider;
    let pb = b.provider;
    let ha = zero_ended(pa.heightmap_url@) + tail(a);
    let hb = zero_ended(pb.heightmap_url@) + tail(b);
    let ta = zero_ended(pa.texture_url@) + ha;
    let tb = zero_ended(pb.texture_url@) + hb;
    let v = encode_utf8("0.1.0"@);
    lemma_same_front(v, v, table_bytes(a.resolution@) + ta, table_bytes(b.resolution@) + tb);
    lemma_same_front(table_bytes(a.resolution@), table_bytes(b.resolution@), ta, tb);
    lemma_table(a.resolution@, b.resolution@);
    lemma_zero_ended(pa.texture_url@, pb.texture_url@, ha, hb);
    lemma_zero_ended(pa.heightmap_url@, pb.heightmap_url@, tail(a), tail(b));
    let three_a = seq![pa.texture_max_zoom, pa.heightmap_max_zoom, a.jpeg_quality];
    let three_b = seq![pb.texture_max_zoom, pb.heightmap_max_zoom, b.jpeg_quality];
    lemma_same_front(three_a, three_b, further_bytes(a), further_bytes(b));
    assert(three_a[0] == three_b[0] && three_a[1] == three_b[1] && three_a[2] == three_b[2]);
    lemma_further(a, b);
}

/// A fingerprint is how the hash of the preimage begins.
pub proof fn law_fingerprint_begins_the_hash(cfg: Config, i: int)
    requires
        blake3_hex(preimage(cfg)).len() >= 16,
        0 <= i < 16,
    ensures
        fingerprint_spec(cfg).len() == 16,
        fingerprint_spec(cfg)[i] == blake3_hex(preimage(cfg))[i],
{
}

} // verus!
