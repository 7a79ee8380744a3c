use vstd::prelude::*;

use crate::bytes::{
    copy_range, lemma_u16_at_concat, lemma_u32_at_concat, push_all, push_u16, push_u32, read_u16, read_u32, u16_at, u16_bytes, u32_at,
    u32_bytes,
};
use crate::enums::{NtrCharacterFormat, NtrFileVersion, NtrMappingType, NtrTextureFormat};
use crate::error::NtrError;
use crate::image::{
    pixels_of, pixels_to_tiles, tile_views, tiles_of, tiles_to_pixels, unpack_4bpp, Image, Tile,
};
use crate::ntr::{
    NtrFormat,
    encodable, file_bytes, lemma_container_round_trip, parse_file, tag_is, BlockView, NtrFile, NtrFileBlock, NtrFileView,
    U32_MAX,
};

verus! {

/// One step of the key backwards: `(key - 24691) * 4005161829`, wrapping at 32 bits.
pub open spec fn key_back(k: u32) -> u32 {
    (((k as u64 + 4294942605) as u32) as u64 * 4005161829) as u32
}

/// One step of the key forwards: `key * 1103515245 + 24691`, wrapping at 32 bits.
pub open spec fn key_fwd(k: u32) -> u32 {
    ((k as u64 * 1103515245 + 24691) as u32)
}

pub open spec fn key_back_n(k: u32, n: nat) -> u32
    decreases n,
{
    if n == 0 {
        k
    } else {
        key_back(key_back_n(k, (n - 1) as nat))
    }
}

pub open spec fn key_fwd_n(k: u32, n: nat) -> u32
    decreases n,
{
    if n == 0 {
        k
    } else {
        key_fwd(key_fwd_n(k, (n - 1) as nat))
    }
}

/// Byte `j % 2` of the low 16 bits of a key, the byte that masks byte `j` of a word.
pub open spec fn key_byte(k: u32, j: int) -> u8 {
    if j % 2 == 0 {
        (k % 256) as u8
    } else {
        ((k / 256) % 256) as u8
    }
}

/// Ciphered data: word `i` (of `n`) is XORed with the low 16 bits of the key
/// taken `n - i` steps backwards from `k`; the last word uses the first step.
pub open spec fn cipher_bytes(d: Seq<u8>, k: u32) -> Seq<u8> {
    Seq::new(
        d.len(),
        |j: int| d[j] ^ key_byte(key_back_n(k, (d.len() / 2 - j / 2) as nat), j),
    )
}

/// The key that deciphering starts from: the first word of the data.
pub open spec fn decipher_seed(c: Seq<u8>) -> u32 {
    u16_at(c, 0) as u32
}

/// Deciphered data: word `i` is XORed with the low 16 bits of the key taken
/// `i` steps forwards from the seed.
pub open spec fn decipher_bytes(c: Seq<u8>) -> Seq<u8> {
    Seq::new(
        c.len(),
        |j: int| c[j] ^ key_byte(key_fwd_n(decipher_seed(c), (j / 2) as nat), j),
    )
}

/// The key that deciphering ends on: the seed taken one step per word.
pub open spec fn decipher_key(c: Seq<u8>) -> u32 {
    key_fwd_n(decipher_seed(c), (c.len() / 2) as nat)
}

proof fn lemma_fwd_back(x: u32)
    ensures
        key_fwd(key_back(x)) == x,
{
    assert(((((((x as u64 + 4294942605) as u32) as u64 * 4005161829) as u32) as u64 * 1103515245
        + 24691) as u32) == x) by (bit_vector);
}

proof fn lemma_fwd_low16(x: u32, y: u32)
    requires
        x % 65536 == y % 65536,
    ensures
        key_fwd(x) % 65536 == key_fwd(y) % 65536,
{
    assert(((x as u64 * 1103515245 + 24691) as u32) % 65536 == ((y as u64 * 1103515245 + 24691) as u32)
        % 65536) by (bit_vector)
        requires
            x % 65536 == y % 65536,
    ;
}

/// Walking forwards `i` steps from a key that agrees with `key_back_n(k, n)` in
/// its low 16 bits lands on a key that agrees with `key_back_n(k, n - i)` there.
proof fn lemma_fwd_undoes_back(k: u32, s: u32, n: nat, i: nat)
    requires
        i <= n,
        s % 65536 == key_back_n(k, n) % 65536,
    ensures
        key_fwd_n(s, i) % 65536 == key_back_n(k, (n - i) as nat) % 65536,
    decreases i,
{
    if i > 0 {
        lemma_fwd_undoes_back(k, s, n, (i - 1) as nat);
        let m = (n - i) as nat;
        lemma_fwd_low16(key_fwd_n(s, (i - 1) as nat), key_back_n(k, (m + 1) as nat));
        lemma_fwd_back(key_back_n(k, m));
    }
}

/// Deciphering ciphered data gives the data back, for every key `k` and all
/// data of even length whose first word is zero (deciphering takes its starting
/// key from the first ciphered word, which then deciphers to zero). The key it
/// ends on is the recovered seed advanced one step per word, and it agrees with
/// `k` in its low 16 bits.
pub proof fn lemma_cipher_round_trip(d: Seq<u8>, k: u32)
    requires
        d.len() % 2 == 0,
        d.len() >= 2,
        d[0] == 0,
        d[1] == 0,
    ensures
        decipher_bytes(cipher_bytes(d, k)) == d,
        decipher_key(cipher_bytes(d, k)) == key_fwd_n(
            (key_back_n(k, (d.len() / 2) as nat) % 65536) as u32,
            (d.len() / 2) as nat,
        ),
        decipher_key(cipher_bytes(d, k)) % 65536 == k % 65536,
{
    let c = cipher_bytes(d, k);
    let n = (d.len() / 2) as nat;
    let kn = key_back_n(k, n);
    let seed = decipher_seed(c);
    assert(c[0] == 0 ^ key_byte(kn, 0));
    assert(c[1] == 0 ^ key_byte(kn, 1));
    assert(seed == kn % 65536) by {
        let a = c[0];
        let b = c[1];
        assert(0u8 ^ ((kn % 256) as u8) == (kn % 256) as u8) by (bit_vector);
        assert(0u8 ^ (((kn / 256) % 256) as u8) == ((kn / 256) % 256) as u8) by (bit_vector);
        assert(((kn % 256) as u8) as int + 256 * (((kn / 256) % 256) as u8) as int == kn % 65536)
            by (bit_vector);
    }
    assert forall|j: int| 0 <= j < d.len() implies #[trigger] decipher_bytes(c)[j] == d[j] by {
        let i = (j / 2) as nat;
        lemma_fwd_undoes_back(k, seed, n, i);
        let a = key_fwd_n(seed, i);
        let b = key_back_n(k, (n - i) as nat);
        assert(n - i == d.len() / 2 - j / 2);
        assert(key_byte(a, j) == key_byte(b, j)) by {
            assert(a % 65536 == b % 65536 ==> (a % 256) as u8 == (b % 256) as u8 && ((a / 256)
                % 256) as u8 == ((b / 256) % 256) as u8) by (bit_vector);
        }
        let x = d[j];
        let y = key_byte(b, j);
        assert((x ^ y) ^ y == x) by (bit_vector);
    }
    assert(decipher_bytes(c) =~= d);
    lemma_fwd_undoes_back(k, seed, n, n);
    assert(seed % 65536 == seed);
}

/// Ciphers 16-bit little-endian words, walking from the last word to the first.
pub fn cipher(data: &[u8], key: u32) -> (r: Vec<u8>)
    requires
        data@.len() % 2 == 0,
    ensures
        r@ == cipher_bytes(data@, key),
{
    let n = data.len() / 2;
    // keys[m] is the key after m + 1 backward steps
    let mut keys: Vec<u32> = Vec::new();
    let mut k = key;
    let mut m: usize = 0;
    while m < n
        invariant
            m <= n,
            keys@.len() == m,
            k == key_back_n(key, m as nat),
            forall|i: int| 0 <= i < m ==> #[trigger] keys@[i] == key_back_n(key, (i + 1) as nat),
        decreases n - m,
    {
        k = (((k as u64 + 4294942605) as u32) as u64 * 4005161829) as u32;
        keys.push(k);
        m = m + 1;
    }
    let mut out: Vec<u8> = Vec::new();
    let mut j: usize = 0;
    while j < data.len()
        invariant
            n == data@.len() / 2,
            data@.len() % 2 == 0,
            keys@.len() == n,
            forall|i: int| 0 <= i < n ==> #[trigger] keys@[i] == key_back_n(key, (i + 1) as nat),
            j <= data@.len(),
            out@ == cipher_bytes(data@, key).subrange(0, j as int),
        decreases data@.len() - j,
    {
        let kk = keys[n - j / 2 - 1];
        let mask = if j % 2 == 0 {
            (kk % 256) as u8
        } else {
            ((kk / 256) % 256) as u8
        };
        out.push(data[j] ^ mask);
        j = j + 1;
        assert(out@ =~= cipher_bytes(data@, key).subrange(0, j as int));
    }
    assert(cipher_bytes(data@, key).subrange(0, j as int) =~= cipher_bytes(data@, key));
    out
}

/// Deciphers 16-bit little-endian words from the first to the last, starting
/// from the key that the first word holds; also returns the key reached.
pub fn decipher(data: &[u8]) -> (r: (Vec<u8>, u32))
    requires
        data@.len() % 2 == 0,
        data@.len() >= 2,
    ensures
        r.0@ == decipher_bytes(data@),
        r.1 == decipher_key(data@),
{
    let seed = read_u16(data, 0).unwrap() as u32;
    let mut key = seed;
    let mut out: Vec<u8> = Vec::new();
    let mut i: usize = 0;
    let n = data.len() / 2;
    while i < n
        invariant
            n == data@.len() / 2,
            data@.len() % 2 == 0,
            data@.len() <= usize::MAX,
            seed == decipher_seed(data@),
            i <= n,
            key == key_fwd_n(seed, i as nat),
            out@ == decipher_bytes(data@).subrange(0, 2 * i as int),
        decreases n - i,
    {
        out.push(data[2 * i] ^ ((key % 256) as u8));
        out.push(data[2 * i + 1] ^ (((key / 256) % 256) as u8));
        assert(out@ =~= decipher_bytes(data@).subrange(0, 2 * i + 2));
        key = (key as u64 * 1103515245 + 24691) as u32;
        i = i + 1;
    }
    assert(decipher_bytes(data@).subrange(0, 2 * n as int) =~= decipher_bytes(data@));
    (out, key)
}

/// Pixels of 4-bit data packed two per byte, the first in the low nibble.
pub open spec fn pack_4bpp(p: Seq<u8>) -> Seq<u8> {
    Seq::new(p.len() / 2, |i: int| p[2 * i] | ((p[2 * i + 1] % 16) * 16) as u8)
}

/// The bytes that stand for pixels in a texture format.
pub open spec fn raw_of(tf: NtrTextureFormat, p: Seq<u8>) -> Seq<u8> {
    if tf == NtrTextureFormat::Palette16 {
        pack_4bpp(p)
    } else {
        p
    }
}

/// The pixels that bytes stand for in a texture format.
pub open spec fn pixels_from_raw(tf: NtrTextureFormat, raw: Seq<u8>) -> Seq<u8> {
    if tf == NtrTextureFormat::Palette16 {
        unpack_4bpp(raw)
    } else {
        raw
    }
}

/// Tiles laid end to end.
pub open spec fn flatten_tiles(ts: Seq<Seq<u8>>) -> Seq<u8> {
    Seq::new(ts.len() * 64, |i: int| ts[i / 64][i % 64])
}

/// Size class of a 1D mapping.
#[derive(Clone, Copy, Debug, PartialEq, Eq, Structural)]
pub enum Mapping1DVariant {
    Vram32,
    Vram64,
    Vram128,
    Vram256,
}

/// How the data is mapped: a 2D grid of (width, height) tiles, or a 1D region.
#[derive(Clone, Copy, Debug, PartialEq, Eq, Structural)]
pub enum MappingData {
    TwoD(usize, usize),
    OneD(Mapping1DVariant),
}

/// Graphics data: tiles with their character value (0 or 256), or a bitmap.
pub enum CharacterData {
    Character(Vec<Tile>, u32),
    Bitmap(Vec<u8>),
}

impl CharacterData {
    /// The pixels in stored order: tile after tile, or the bitmap.
    pub open spec fn flat_pixels(&self) -> Seq<u8> {
        match self {
            CharacterData::Character(ts, _) => flatten_tiles(tile_views(ts@)),
            CharacterData::Bitmap(p) => p@,
        }
    }

    /// The character format that the variant stands for.
    pub open spec fn format(&self) -> NtrCharacterFormat {
        match self {
            CharacterData::Character(_, v) => if *v == 256 {
                NtrCharacterFormat::Character256
            } else {
                NtrCharacterFormat::Character
            },
            CharacterData::Bitmap(_) => NtrCharacterFormat::Bitmap,
        }
    }
}

impl MappingData {
    pub open spec fn mapping_type(self) -> NtrMappingType {
        match self {
            MappingData::TwoD(_, _) => NtrMappingType::Mode2D,
            MappingData::OneD(Mapping1DVariant::Vram32) => NtrMappingType::Mode1D32K,
            MappingData::OneD(Mapping1DVariant::Vram64) => NtrMappingType::Mode1D64K,
            MappingData::OneD(Mapping1DVariant::Vram128) => NtrMappingType::Mode1D128K,
            MappingData::OneD(Mapping1DVariant::Vram256) => NtrMappingType::Mode1D256K,
        }
    }
}

/// The configuration of a character-graphics file.
#[derive(Clone, Copy, Debug)]
pub struct NcgrMetadata {
    pub version: NtrFileVersion,
    pub texture_format: NtrTextureFormat,
    pub mapping_type: NtrMappingType,
    pub character_format: NtrCharacterFormat,
    /// Whether the CPOS block is included. Defaults to false.
    pub include_cpos: bool,
}

impl Default for NcgrMetadata {
    fn default() -> (r: Self)
        ensures
            r.version == NtrFileVersion::Version0100,
            r.texture_format == NtrTextureFormat::Palette16,
            r.mapping_type == NtrMappingType::Mode2D,
            r.character_format == NtrCharacterFormat::Character,
            !r.include_cpos,
    {
        NcgrMetadata {
            version: NtrFileVersion::Version0100,
            texture_format: NtrTextureFormat::Palette16,
            mapping_type: NtrMappingType::Mode2D,
            character_format: NtrCharacterFormat::Character,
            include_cpos: false,
        }
    }
}

impl NcgrMetadata {
    pub fn with_version(self, version: NtrFileVersion) -> (r: Self)
        ensures
            r == (NcgrMetadata { version, ..self }),
    {
        NcgrMetadata { version, ..self }
    }

    pub fn with_texture_format(self, texture_format: NtrTextureFormat) -> (r: Self)
        ensures
            r == (NcgrMetadata { texture_format, ..self }),
    {
        NcgrMetadata { texture_format, ..self }
    }

    pub fn with_mapping_type(self, mapping_type: NtrMappingType) -> (r: Self)
        ensures
            r == (NcgrMetadata { mapping_type, ..self }),
    {
        NcgrMetadata { mapping_type, ..self }
    }

    pub fn with_character_format(self, character_format: NtrCharacterFormat) -> (r: Self)
        ensures
            r == (NcgrMetadata { character_format, ..self }),
    {
        NcgrMetadata { character_format, ..self }
    }

    pub fn include_cpos(self, include_cpos: bool) -> (r: Self)
        ensures
            r == (NcgrMetadata { include_cpos, ..self }),
    {
        NcgrMetadata { include_cpos, ..self }
    }
}

/// Character graphics: 8x8 tiles or a bitmap of palette indices.
pub struct Ncgr {
    pub version: NtrFileVersion,
    pub texture_format: NtrTextureFormat,
    pub mapping_data: MappingData,
    pub character_data: CharacterData,
    pub include_cpos: bool,
}

/// Whether a character block payload holds graphics: a 24-byte header (height
/// and width in tiles, texture format, a reserved word, mapping mode, character
/// format, data size, data offset 0x18) and then the data. The format must be
/// 16- or 256-color; the sizes are 0xFFFF exactly for 1D modes; tiled data must
/// fill whole tiles.
pub open spec fn char_payload_ok(c: Seq<u8>) -> bool {
    c.len() >= 24 && (u16_at(c, 4) == 3 || u16_at(c, 4) == 4) && (exists|m: NtrMappingType|
        m.ncgr_code() == u32_at(c, 8)) && (u32_at(c, 8) == 0 ==> u16_at(c, 0) != 0xFFFF
        && u16_at(c, 2) != 0xFFFF) && (u32_at(c, 8) != 0 ==> u16_at(c, 0) == 0xFFFF && u16_at(c, 2)
        == 0xFFFF) && (exists|f: NtrCharacterFormat| f.code() == u32_at(c, 12)) && u32_at(c, 20)
        == 0x18 && 24 + u32_at(c, 16) <= c.len() && u32_at(c, 16) * 2 <= usize::MAX && (u32_at(c, 12) != 1 ==> char_payload_pixels(c).len()
        % 64 == 0)
}

/// The texture format of a character block payload.
pub open spec fn char_payload_format(c: Seq<u8>) -> NtrTextureFormat {
    if u16_at(c, 4) == 3 {
        NtrTextureFormat::Palette16
    } else {
        NtrTextureFormat::Palette256
    }
}

/// The pixels of a character block payload, in stored order.
pub open spec fn char_payload_pixels(c: Seq<u8>) -> Seq<u8> {
    pixels_from_raw(char_payload_format(c), c.subrange(24, 24 + u32_at(c, 16)))
}

/// Bytes of a character block payload.
pub open spec fn char_block_bytes(
    h: u16,
    w: u16,
    tf: NtrTextureFormat,
    mt: NtrMappingType,
    cf: NtrCharacterFormat,
    raw: Seq<u8>,
) -> Seq<u8> {
    u16_bytes(h) + u16_bytes(w) + u16_bytes(tf.code()) + u16_bytes(0) + u32_bytes(mt.ncgr_code())
        + u32_bytes(cf.code()) + u32_bytes(raw.len() as u32) + u32_bytes(0x18) + raw
}

/// Packs pixels two per byte, the first in the low nibble.
pub fn pack_4bpp_pixels(p: &[u8]) -> (r: Vec<u8>)
    requires
        p@.len() % 2 == 0,
    ensures
        r@ == pack_4bpp(p@),
{
    let mut out: Vec<u8> = Vec::new();
    let mut i: usize = 0;
    let n = p.len() / 2;
    while i < n
        invariant
            n == p@.len() / 2,
            p@.len() % 2 == 0,
            p@.len() <= usize::MAX,
            i <= n,
            out@ == pack_4bpp(p@).subrange(0, i as int),
        decreases n - i,
    {
        out.push(p[2 * i] | ((p[2 * i + 1] % 16) * 16));
        i = i + 1;
        assert(out@ =~= pack_4bpp(p@).subrange(0, i as int));
    }
    assert(pack_4bpp(p@).subrange(0, n as int) =~= pack_4bpp(p@));
    out
}

/// Tiles laid end to end.
fn flatten(tiles: &Vec<Tile>) -> (r: Vec<u8>)
    requires
        tiles@.len() * 64 <= usize::MAX,
    ensures
        r@ == flatten_tiles(tile_views(tiles@)),
{
    let mut out: Vec<u8> = Vec::new();
    let n = tiles.len() * 64;
    let mut i: usize = 0;
    while i < n
        invariant
            n == tiles@.len() * 64,
            i <= n,
            out@ == flatten_tiles(tile_views(tiles@)).subrange(0, i as int),
        decreases n - i,
    {
        out.push(tiles[i / 64][i % 64]);
        i = i + 1;
        assert(out@ =~= flatten_tiles(tile_views(tiles@)).subrange(0, i as int));
    }
    assert(flatten_tiles(tile_views(tiles@)).subrange(0, n as int) =~= flatten_tiles(
        tile_views(tiles@),
    ));
    out
}

/// Cuts pixels into consecutive 64-pixel tiles.
fn chunk_tiles(p: &[u8]) -> (r: Vec<Tile>)
    requires
        p@.len() % 64 == 0,
    ensures
        flatten_tiles(tile_views(r@)) == p@,
        r@.len() == p@.len() / 64,
{
    let n = p.len() / 64;
    let mut tiles: Vec<Tile> = Vec::new();
    let mut t: usize = 0;
    while t < n
        invariant
            n == p@.len() / 64,
            p@.len() % 64 == 0,
            p@.len() <= usize::MAX,
            t <= n,
            tiles@.len() == t,
            forall|j: int, k: int|
                0 <= j < t && 0 <= k < 64 ==> #[trigger] tiles@[j]@[k] == p@[64 * j + k],
        decreases n - t,
    {
        let mut tile: Tile = [0u8; 64];
        let mut k: usize = 0;
        while k < 64
            invariant
                p@.len() <= usize::MAX,
                t < n,
                n == p@.len() / 64,
                k <= 64,
                forall|j: int| 0 <= j < k ==> tile@[j] == p@[64 * t + j],
            decreases 64 - k,
        {
            tile[k] = p[64 * t + k];
            k = k + 1;
        }
        let ghost before = tiles@;
        tiles.push(tile);
        assert(tiles@[t as int] == tile);
        assert(forall|j: int| 0 <= j < t ==> tiles@[j] == before[j]);
        t = t + 1;
    }
    assert forall|i: int| 0 <= i < p@.len() implies #[trigger] flatten_tiles(tile_views(tiles@))[i]
        == p@[i] by {
        assert(64 * (i / 64) + i % 64 == i);
    }
    assert(flatten_tiles(tile_views(tiles@)) =~= p@);
    tiles
}

impl Ncgr {
    /// The texture format is 16- or 256-color and tiles carry a character value of 0 or 256.
    pub open spec fn wf(&self) -> bool {
        self.texture_format.is_indexed() && match self.character_data {
            CharacterData::Character(_, v) => v == 0 || v == 256,
            CharacterData::Bitmap(_) => true,
        }
    }

    /// Bytes that the pixels take in the file.
    pub open spec fn raw_view(&self) -> Seq<u8> {
        raw_of(self.texture_format, self.character_data.flat_pixels())
    }

    /// Whether the pixels pack into whole bytes.
    pub open spec fn raw_ok(&self) -> bool {
        self.character_data.flat_pixels().len() <= usize::MAX && (self.texture_format == NtrTextureFormat::Palette16 ==> self.character_data.flat_pixels().len()
            % 2 == 0)
    }

    pub fn mapping_type(&self) -> (r: NtrMappingType)
        ensures
            r == self.mapping_data.mapping_type(),
    {
        match &self.mapping_data {
            MappingData::TwoD(_, _) => NtrMappingType::Mode2D,
            MappingData::OneD(v) => match v {
                Mapping1DVariant::Vram32 => NtrMappingType::Mode1D32K,
                Mapping1DVariant::Vram64 => NtrMappingType::Mode1D64K,
                Mapping1DVariant::Vram128 => NtrMappingType::Mode1D128K,
                Mapping1DVariant::Vram256 => NtrMappingType::Mode1D256K,
            },
        }
    }

    pub fn character_format(&self) -> (r: NtrCharacterFormat)
        ensures
            r == self.character_data.format(),
    {
        match &self.character_data {
            CharacterData::Character(_, v) => if *v == 256 {
                NtrCharacterFormat::Character256
            } else {
                NtrCharacterFormat::Character
            },
            CharacterData::Bitmap(_) => NtrCharacterFormat::Bitmap,
        }
    }

    /// The configuration this graphics data was built or read with.
    pub fn metadata(&self) -> (r: NcgrMetadata)
        ensures
            r.version == self.version,
            r.texture_format == self.texture_format,
            r.mapping_type == self.mapping_data.mapping_type(),
            r.character_format == self.character_data.format(),
            r.include_cpos == self.include_cpos,
    {
        NcgrMetadata {
            version: self.version,
            texture_format: self.texture_format,
            mapping_type: self.mapping_type(),
            character_format: self.character_format(),
            include_cpos: self.include_cpos,
        }
    }

    /// The pixels as stored in the file: packed two per byte for 16 colors.
    pub fn character_data_to_raw_data(&self) -> (r: Result<Vec<u8>, NtrError>)
        ensures
            r is Ok <==> self.raw_ok(),
            r matches Ok(v) ==> v@ == self.raw_view(),
            r matches Err(e) ==> e == NtrError::Precondition,
    {
        let flat = match &self.character_data {
            CharacterData::Character(tiles, _) => {
                if tiles.len() > usize::MAX / 64 {
                    return Err(NtrError::Precondition);
                }
                flatten(tiles)
            },
            CharacterData::Bitmap(pixels) => copy_range(pixels.as_slice(), 0, pixels.len()),
        };
        assert(flat@ =~= self.character_data.flat_pixels());
        if self.texture_format == NtrTextureFormat::Palette16 {
            if flat.len() % 2 != 0 {
                return Err(NtrError::Precondition);
            }
            Ok(pack_4bpp_pixels(flat.as_slice()))
        } else {
            Ok(flat)
        }
    }

    /// Graphics data from stored bytes: unpacked per texture format, then cut
    /// into tiles unless the layout is a bitmap.
    pub fn raw_data_to_character_data(
        raw_data: &[u8],
        texture_format: NtrTextureFormat,
        character_format: NtrCharacterFormat,
    ) -> (r: Result<CharacterData, NtrError>)
        requires
            raw_data@.len() <= U32_MAX,
        ensures
            r is Ok <==> raw_data@.len() * 2 <= usize::MAX && (character_format
                == NtrCharacterFormat::Bitmap || pixels_from_raw(texture_format, raw_data@).len() % 64
                == 0),
            r matches Ok(cd) ==> cd.flat_pixels() == pixels_from_raw(texture_format, raw_data@)
                && cd.format() == character_format && (cd matches CharacterData::Character(_, v)
                ==> v == 0 || v == 256),
            r matches Err(e) ==> e == NtrError::Malformed,
    {
        if raw_data.len() > usize::MAX / 2 {
            return Err(NtrError::Malformed);
        }
        let pixels = if texture_format == NtrTextureFormat::Palette16 {
            Image::raw_data_4bpp_to_pixels(raw_data)
        } else {
            Image::raw_data_8bpp_to_pixels(raw_data)
        };
        match character_format {
            NtrCharacterFormat::Bitmap => Ok(CharacterData::Bitmap(pixels)),
            _ => {
                if pixels.len() % 64 != 0 {
                    return Err(NtrError::Malformed);
                }
                let tiles = chunk_tiles(pixels.as_slice());
                Ok(CharacterData::Character(tiles, character_format.into_u32()))
            },
        }
    }
}

/// Whether a container holds graphics: tag `RGCN`, a character block (tag
/// `RAHC`) and, where there is a second block, a position block (tag `SOPC`).
pub open spec fn ncgr_file_ok(f: NtrFileView) -> bool {
    &&& f.id == seq![0x52u8, 0x47, 0x43, 0x4E]
    &&& f.blocks.len() >= 1
    &&& f.blocks[0].id == seq![0x52u8, 0x41, 0x48, 0x43]
    &&& char_payload_ok(f.blocks[0].contents)
    &&& f.blocks.len() > 1 ==> f.blocks[1].id == seq![0x53u8, 0x4F, 0x50, 0x43]
}

/// Whether graphics hold what a container holds.
pub open spec fn ncgr_read_from(f: NtrFileView, g: Ncgr) -> bool {
    let c = f.blocks[0].contents;
    &&& g.wf()
    &&& g.version == f.version
    &&& g.texture_format == char_payload_format(c)
    &&& g.mapping_data.mapping_type().ncgr_code() == u32_at(c, 8)
    &&& (g.mapping_data matches MappingData::TwoD(w, h) ==> w == u16_at(c, 2) && h == u16_at(c, 0))
    &&& g.character_data.format().code() == u32_at(c, 12)
    &&& g.character_data.flat_pixels() == char_payload_pixels(c)
    &&& g.include_cpos == (f.blocks.len() > 1)
}

/// The grid size that the character block stores: (width, height) in tiles,
/// or 0xFFFF for both in 1D modes.
pub open spec fn stored_grid(m: MappingData) -> (u16, u16) {
    match m {
        MappingData::TwoD(w, h) => (w as u16, h as u16),
        MappingData::OneD(_) => (0xFFFF, 0xFFFF),
    }
}

/// Whether graphics fit their blocks' fields.
pub open spec fn ncgr_writable(g: Ncgr) -> bool {
    &&& g.raw_ok()
    &&& g.raw_view().len() <= U32_MAX
    &&& (g.mapping_data matches MappingData::TwoD(w, h) ==> w <= 0xFFFF && h <= 0xFFFF)
    &&& (g.include_cpos ==> g.mapping_data is TwoD)
}

/// The container graphics are written as: the character block, then the
/// position block where it was asked for.
pub open spec fn ncgr_file_view(g: Ncgr) -> NtrFileView {
    let (w, h) = stored_grid(g.mapping_data);
    NtrFileView {
        id: seq![0x52u8, 0x47, 0x43, 0x4E],
        version: g.version,
        blocks: seq![
            BlockView {
                id: seq![0x52u8, 0x41, 0x48, 0x43],
                contents: char_block_bytes(
                    h,
                    w,
                    g.texture_format,
                    g.mapping_data.mapping_type(),
                    g.character_data.format(),
                    g.raw_view(),
                ),
            },
        ] + if g.include_cpos {
            seq![
                BlockView {
                    id: seq![0x53u8, 0x4F, 0x50, 0x43],
                    contents: u16_bytes(0) + u16_bytes(0) + u16_bytes(w) + u16_bytes(h),
                },
            ]
        } else {
            Seq::<BlockView>::empty()
        },
    }
}

impl Ncgr {
    /// The character block (tag `RAHC`): grid size (0xFFFF for 1D modes),
    /// formats, data size, the fixed offset 0x18 and the data.
    pub fn to_char_block(&self) -> (r: Result<NtrFileBlock, NtrError>)
        ensures
            r is Ok <==> self.raw_ok() && self.raw_view().len() <= U32_MAX && (
            self.mapping_data matches MappingData::TwoD(w, h) ==> w <= 0xFFFF && h <= 0xFFFF),
            r matches Ok(b) ==> b.id@ == seq![0x52u8, 0x41, 0x48, 0x43] && b.contents@
                == char_block_bytes(
                match self.mapping_data {
                    MappingData::TwoD(_, h) => h as u16,
                    MappingData::OneD(_) => 0xFFFF,
                },
                match self.mapping_data {
                    MappingData::TwoD(w, _) => w as u16,
                    MappingData::OneD(_) => 0xFFFF,
                },
                self.texture_format,
                self.mapping_data.mapping_type(),
                self.character_data.format(),
                self.raw_view(),
            ),
            r matches Err(e) ==> e == NtrError::Precondition,
    {
        let (w, h): (usize, usize) = match self.mapping_data {
            MappingData::TwoD(w, h) => (w, h),
            MappingData::OneD(_) => (0xFFFF, 0xFFFF),
        };
        if w > 0xFFFF || h > 0xFFFF {
            return Err(NtrError::Precondition);
        }
        let raw = match self.character_data_to_raw_data() {
            Ok(v) => v,
            Err(e) => {
                return Err(e);
            },
        };
        if raw.len() as u64 > U32_MAX {
            return Err(NtrError::Precondition);
        }
        let mut c: Vec<u8> = Vec::new();
        push_u16(&mut c, h as u16);
        push_u16(&mut c, w as u16);
        push_u16(&mut c, self.texture_format.into_u16());
        push_u16(&mut c, 0);
        push_u32(&mut c, self.mapping_type().into_u32_ncgr());
        push_u32(&mut c, self.character_format().into_u32());
        push_u32(&mut c, raw.len() as u32);
        push_u32(&mut c, 0x18);
        push_all(&mut c, raw.as_slice());
        Ok(NtrFileBlock { id: [0x52, 0x41, 0x48, 0x43], contents: c })
    }

    /// The position block (tag `SOPC`): two zero words, then width and height
    /// in tiles. Only a 2D grid has one.
    pub fn to_cpos_block(&self) -> (r: Result<NtrFileBlock, NtrError>)
        ensures
            r is Ok <==> (self.mapping_data matches MappingData::TwoD(w, h) && w <= 0xFFFF && h
                <= 0xFFFF),
            r matches Ok(b) ==> b.id@ == seq![0x53u8, 0x4F, 0x50, 0x43] && (
            self.mapping_data matches MappingData::TwoD(w, h) && b.contents@ == u16_bytes(0)
                + u16_bytes(0) + u16_bytes(w as u16) + u16_bytes(h as u16)),
    {
        match self.mapping_data {
            MappingData::TwoD(w, h) => {
                if w > 0xFFFF || h > 0xFFFF {
                    return Err(NtrError::Precondition);
                }
                let mut c: Vec<u8> = Vec::new();
                push_u16(&mut c, 0);
                push_u16(&mut c, 0);
                push_u16(&mut c, w as u16);
                push_u16(&mut c, h as u16);
                Ok(NtrFileBlock { id: [0x53, 0x4F, 0x50, 0x43], contents: c })
            },
            MappingData::OneD(_) => Err(NtrError::Unsupported),
        }
    }

    /// The container (tag `RGCN`): the character block, then the position
    /// block where it was asked for.
    pub fn write_to_ntr_file(&self) -> (r: Result<NtrFile, NtrError>)
        ensures
            r is Ok <==> ncgr_writable(*self),
            r matches Ok(f) ==> f@ == ncgr_file_view(*self),
    {
        let char_block = match self.to_char_block() {
            Ok(b) => b,
            Err(e) => {
                return Err(e);
            },
        };
        let mut blocks: Vec<NtrFileBlock> = Vec::new();
        blocks.push(char_block);
        if self.include_cpos {
            match self.to_cpos_block() {
                Ok(b) => blocks.push(b),
                Err(e) => {
                    return Err(e);
                },
            }
        }
        let f = NtrFile { id: [0x52, 0x47, 0x43, 0x4E], version: self.version, blocks };
        assert(f@.blocks[0] == f.blocks@[0]@);
        assert(f.blocks@.len() > 1 ==> f@.blocks[1] == f.blocks@[1]@);
        assert(f@.blocks =~= ncgr_file_view(*self).blocks);
        assert(f@.id =~= ncgr_file_view(*self).id);
        Ok(f)
    }

    /// Reads graphics from a container: tag `RGCN`, a character block first and,
    /// where there is a second block, a position block.
    pub fn read_from_ntr_file(file: &NtrFile) -> (r: Result<Ncgr, NtrError>)
        ensures
            r is Ok <==> ncgr_file_ok(file@),
            r matches Ok(g) ==> ncgr_read_from(file@, g),
    {
        if !tag_is(&file.id, 0x52, 0x47, 0x43, 0x4E) || file.blocks.len() < 1 {
            return Err(NtrError::Malformed);
        }
        let block = &file.blocks[0];
        assert(file@.blocks[0] == block@);
        if !tag_is(&block.id, 0x52, 0x41, 0x48, 0x43) {
            return Err(NtrError::Malformed);
        }
        let c = block.contents.as_slice();
        if c.len() < 24 {
            return Err(NtrError::Malformed);
        }
        let h = read_u16(c, 0).unwrap();
        let w = read_u16(c, 2).unwrap();
        let tf = match NtrTextureFormat::from_u16(read_u16(c, 4).unwrap()) {
            Some(t) => t,
            None => {
                assert(NtrTextureFormat::Palette16.code() != u16_at(c@, 4));
                assert(NtrTextureFormat::Palette256.code() != u16_at(c@, 4));
                return Err(NtrError::Unsupported);
            },
        };
        if !tf.is_indexed_format() {
            return Err(NtrError::Unsupported);
        }
        let mt = match NtrMappingType::from_u32_ncgr(read_u32(c, 8).unwrap()) {
            Some(m) => m,
            None => {
                return Err(NtrError::Unsupported);
            },
        };
        let mapping_data = match mt {
            NtrMappingType::Mode2D => {
                if h == 0xFFFF || w == 0xFFFF {
                    return Err(NtrError::Malformed);
                }
                MappingData::TwoD(w as usize, h as usize)
            },
            _ => {
                if h != 0xFFFF || w != 0xFFFF {
                    return Err(NtrError::Malformed);
                }
                match mt {
                    NtrMappingType::Mode1D32K => MappingData::OneD(Mapping1DVariant::Vram32),
                    NtrMappingType::Mode1D64K => MappingData::OneD(Mapping1DVariant::Vram64),
                    NtrMappingType::Mode1D128K => MappingData::OneD(Mapping1DVariant::Vram128),
                    _ => MappingData::OneD(Mapping1DVariant::Vram256),
                }
            },
        };
        let cf = match NtrCharacterFormat::from_u32(read_u32(c, 12).unwrap()) {
            Some(f) => f,
            None => {
                return Err(NtrError::Unsupported);
            },
        };
        let size = read_u32(c, 16).unwrap();
        if read_u32(c, 20).unwrap() != 0x18 {
            return Err(NtrError::Malformed);
        }
        if (size as u64) > ((c.len() - 24) as u64) {
            return Err(NtrError::Malformed);
        }
        let raw = copy_range(c, 24, 24 + size as usize);
        let character_data = match Ncgr::raw_data_to_character_data(raw.as_slice(), tf, cf) {
            Ok(cd) => cd,
            Err(e) => {
                return Err(e);
            },
        };
        let include_cpos = if file.blocks.len() > 1 {
            assert(file@.blocks[1] == file.blocks@[1]@);
            if !tag_is(&file.blocks[1].id, 0x53, 0x4F, 0x50, 0x43) {
                return Err(NtrError::Malformed);
            }
            true
        } else {
            false
        };
        Ok(Ncgr {
            version: file.version,
            texture_format: tf,
            mapping_data,
            character_data,
            include_cpos,
        })
    }
}

impl Ncgr {
    /// Graphics from a picture and a configuration. A 2D grid needs a width and
    /// height that are multiples of 8; tiled data needs a width that is a
    /// multiple of 8 and whole rows of tiles; the format must be 16- or 256-color.
    pub fn from_image(image: Image, metadata: NcgrMetadata) -> (r: Result<Ncgr, NtrError>)
        requires
            image.wf(),
        ensures
            r is Ok <==> metadata.texture_format.is_indexed() && (metadata.mapping_type
                == NtrMappingType::Mode2D ==> image.width % 8 == 0 && image.spec_height() % 8 == 0)
                && (metadata.character_format != NtrCharacterFormat::Bitmap ==> image.width % 8
                == 0 && image.pixels@.len() % 64 == 0 && (image.pixels@.len() as int / 64) % (
            image.width as int / 8) == 0),
            r matches Ok(g) ==> {
                &&& g.wf()
                &&& g.version == metadata.version
                &&& g.texture_format == metadata.texture_format
                &&& g.include_cpos == metadata.include_cpos
                &&& g.mapping_data.mapping_type() == metadata.mapping_type
                &&& (g.mapping_data matches MappingData::TwoD(w, h) ==> w == image.width / 8 && h
                    == image.spec_height() / 8)
                &&& g.character_data.format() == metadata.character_format
                &&& (g.character_data matches CharacterData::Character(ts, _) ==> tile_views(ts@)
                    == tiles_of(image.pixels@, image.width as int / 8))
                &&& (g.character_data matches CharacterData::Bitmap(p) ==> p@ == image.pixels@)
            },
            r matches Err(e) ==> e == NtrError::Precondition,
    {
        if !metadata.texture_format.is_indexed_format() {
            return Err(NtrError::Precondition);
        }
        let mapping_data = match metadata.mapping_type {
            NtrMappingType::Mode2D => {
                if image.width % 8 != 0 || image.height() % 8 != 0 {
                    return Err(NtrError::Precondition);
                }
                MappingData::TwoD(image.width_in_tiles(), image.height_in_tiles())
            },
            NtrMappingType::Mode1D32K => MappingData::OneD(Mapping1DVariant::Vram32),
            NtrMappingType::Mode1D64K => MappingData::OneD(Mapping1DVariant::Vram64),
            NtrMappingType::Mode1D128K => MappingData::OneD(Mapping1DVariant::Vram128),
            NtrMappingType::Mode1D256K => MappingData::OneD(Mapping1DVariant::Vram256),
        };
        let character_data = match metadata.character_format {
            NtrCharacterFormat::Bitmap => {
                let p = image.pixels;
                CharacterData::Bitmap(p)
            },
            _ => {
                if image.width % 8 != 0 || image.pixels.len() % 64 != 0 {
                    return Err(NtrError::Precondition);
                }
                let wt = image.width_in_tiles();
                if (image.pixels.len() / 64) % wt != 0 {
                    return Err(NtrError::Precondition);
                }
                let tiles = pixels_to_tiles(image.pixels.as_slice(), wt);
                CharacterData::Character(tiles, metadata.character_format.into_u32())
            },
        };
        Ok(Ncgr {
            version: metadata.version,
            texture_format: metadata.texture_format,
            mapping_data,
            character_data,
            include_cpos: metadata.include_cpos,
        })
    }

    /// The picture, `width_in_tiles` tiles wide, that the data makes.
    pub open spec fn image_pixels(&self, width_in_tiles: int) -> Seq<u8> {
        match self.character_data {
            CharacterData::Character(ts, _) => pixels_of(tile_views(ts@), width_in_tiles),
            CharacterData::Bitmap(p) => p@,
        }
    }

    /// Whether the data makes a picture `width_in_tiles` tiles wide.
    pub open spec fn fits_width(&self, width_in_tiles: int) -> bool {
        width_in_tiles > 0 && width_in_tiles * 8 <= usize::MAX && match self.character_data {
            CharacterData::Character(ts, _) => ts@.len() as int % width_in_tiles == 0 && ts@.len() * 64
                <= usize::MAX,
            CharacterData::Bitmap(p) => p@.len() as int % (width_in_tiles * 8) == 0,
        }
    }

    fn to_image_internal(&self, width_in_tiles: usize) -> (r: Result<Image, NtrError>)
        ensures
            r is Ok <==> self.fits_width(width_in_tiles as int),
            r matches Ok(img) ==> img.wf() && img.width == width_in_tiles * 8 && img.pixels@
                == self.image_pixels(width_in_tiles as int) && img.palette is None,
            r matches Err(e) ==> e == NtrError::Precondition,
    {
        if width_in_tiles == 0 || width_in_tiles > usize::MAX / 8 {
            return Err(NtrError::Precondition);
        }
        let width = width_in_tiles * 8;
        match &self.character_data {
            CharacterData::Character(tiles, _) => {
                if tiles.len() % width_in_tiles != 0 || tiles.len() > usize::MAX / 64 {
                    return Err(NtrError::Precondition);
                }
                let pixels = tiles_to_pixels(tiles.as_slice(), width_in_tiles);
                proof {
                    let n = tiles@.len() as int;
                    let w = width_in_tiles as int;
                    let q = n / w;
                    assert(n == w * q) by (nonlinear_arith)
                        requires
                            n % w == 0,
                            w > 0,
                            q == n / w,
                    ;
                    assert((q * 8) * (w * 8) == n * 64) by (nonlinear_arith)
                        requires
                            n == w * q,
                    ;
                    vstd::arithmetic::div_mod::lemma_mod_multiples_basic(q * 8, w * 8);
                }
                Ok(Image::new(width, pixels.as_slice(), None))
            },
            CharacterData::Bitmap(pixels) => {
                if pixels.len() % width != 0 {
                    return Err(NtrError::Precondition);
                }
                Ok(Image::new(width, pixels.as_slice(), None))
            },
        }
    }

    /// The picture of a 2D grid, as wide as the grid.
    pub fn to_image(&self) -> (r: Result<Image, NtrError>)
        ensures
            r is Ok <==> (self.mapping_data matches MappingData::TwoD(w, _) && self.fits_width(
                w as int,
            )),
            r matches Ok(img) ==> (self.mapping_data matches MappingData::TwoD(w, _)
                && img.width == w * 8 && img.pixels@ == self.image_pixels(w as int)),
    {
        match self.mapping_data {
            MappingData::TwoD(w, _) => self.to_image_internal(w),
            MappingData::OneD(_) => Err(NtrError::Precondition),
        }
    }

    /// The picture of 1D data, `width` pixels wide (a multiple of 8).
    pub fn to_image_with_width(&self, width: usize) -> (r: Result<Image, NtrError>)
        ensures
            r is Ok <==> self.mapping_data is OneD && width % 8 == 0 && self.fits_width(
                width as int / 8,
            ),
            r matches Ok(img) ==> img.width == width && img.pixels@ == self.image_pixels(
                width as int / 8,
            ),
    {
        match self.mapping_data {
            MappingData::TwoD(_, _) => Err(NtrError::Precondition),
            MappingData::OneD(_) => {
                if width % 8 != 0 {
                    return Err(NtrError::Precondition);
                }
                self.to_image_internal(width / 8)
            },
        }
    }

    /// The same graphics with the stored bytes ciphered from `key`.
    pub fn cipher(self, key: u32) -> (r: Result<Ncgr, NtrError>)
        requires
            self.wf(),
        ensures
            r is Ok <==> self.raw_ok() && self.raw_view().len() % 2 == 0 && self.raw_view().len()
                <= U32_MAX && self.raw_view().len() * 2 <= usize::MAX && (self.character_data.format() == NtrCharacterFormat::Bitmap
                || pixels_from_raw(self.texture_format, self.raw_view()).len() % 64 == 0),
            r matches Ok(g) ==> g.wf() && g.version == self.version && g.texture_format
                == self.texture_format && g.mapping_data == self.mapping_data && g.include_cpos
                == self.include_cpos && g.character_data.format() == self.character_data.format()
                && g.character_data.flat_pixels() == pixels_from_raw(
                self.texture_format,
                cipher_bytes(self.raw_view(), key),
            ),
    {
        let raw = match self.character_data_to_raw_data() {
            Ok(v) => v,
            Err(e) => {
                return Err(e);
            },
        };
        if raw.len() % 2 != 0 || raw.len() as u64 > U32_MAX {
            return Err(NtrError::Precondition);
        }
        let ciphered = cipher(raw.as_slice(), key);
        let cf = self.character_format();
        proof {
            assert(pixels_from_raw(self.texture_format, ciphered@).len() == pixels_from_raw(
                self.texture_format,
                raw@,
            ).len());
        }
        let character_data = match Ncgr::raw_data_to_character_data(
            ciphered.as_slice(),
            self.texture_format,
            cf,
        ) {
            Ok(cd) => cd,
            Err(e) => {
                return Err(e);
            },
        };
        Ok(Ncgr {
            version: self.version,
            texture_format: self.texture_format,
            mapping_data: self.mapping_data,
            character_data,
            include_cpos: self.include_cpos,
        })
    }

    /// The same graphics with the stored bytes deciphered, and the key reached.
    pub fn decipher(self) -> (r: Result<(Ncgr, u32), NtrError>)
        requires
            self.wf(),
        ensures
            r is Ok <==> self.raw_ok() && self.raw_view().len() % 2 == 0 && self.raw_view().len()
                >= 2 && self.raw_view().len() <= U32_MAX && self.raw_view().len() * 2 <= usize::MAX
                && (self.character_data.format()
                == NtrCharacterFormat::Bitmap || pixels_from_raw(
                self.texture_format,
                self.raw_view(),
            ).len() % 64 == 0),
            r matches Ok((g, k)) ==> g.wf() && g.version == self.version && g.texture_format
                == self.texture_format && g.mapping_data == self.mapping_data && g.include_cpos
                == self.include_cpos && g.character_data.format() == self.character_data.format()
                && g.character_data.flat_pixels() == pixels_from_raw(
                self.texture_format,
                decipher_bytes(self.raw_view()),
            ) && k == decipher_key(self.raw_view()),
    {
        let raw = match self.character_data_to_raw_data() {
            Ok(v) => v,
            Err(e) => {
                return Err(e);
            },
        };
        if raw.len() % 2 != 0 || raw.len() < 2 || raw.len() as u64 > U32_MAX {
            return Err(NtrError::Precondition);
        }
        let (plain, key) = decipher(raw.as_slice());
        let cf = self.character_format();
        proof {
            assert(pixels_from_raw(self.texture_format, plain@).len() == pixels_from_raw(
                self.texture_format,
                raw@,
            ).len());
        }
        let character_data = match Ncgr::raw_data_to_character_data(
            plain.as_slice(),
            self.texture_format,
            cf,
        ) {
            Ok(cd) => cd,
            Err(e) => {
                return Err(e);
            },
        };
        Ok(
            (
                Ncgr {
                    version: self.version,
                    texture_format: self.texture_format,
                    mapping_data: self.mapping_data,
                    character_data,
                    include_cpos: self.include_cpos,
                },
                key,
            ),
        )
    }

    /// Decodes graphics from the bytes of a container.
    pub fn read_from_data(data: &[u8]) -> (r: Result<Ncgr, NtrError>)
        ensures
            r is Ok <==> (parse_file(data@) matches Some(f) && ncgr_file_ok(f)),
            r matches Ok(g) ==> ncgr_read_from(parse_file(data@).unwrap(), g),
    {
        match NtrFile::read_from_data(data) {
            Ok(f) => Ncgr::read_from_ntr_file(&f),
            Err(e) => Err(e),
        }
    }

    /// Encodes the graphics as the bytes of a container.
    pub fn write_to_data(&self) -> (r: Result<Vec<u8>, NtrError>)
        ensures
            r is Ok <==> ncgr_writable(*self) && encodable(ncgr_file_view(*self)),
            r matches Ok(v) ==> v@ == file_bytes(ncgr_file_view(*self)),
    {
        match self.write_to_ntr_file() {
            Ok(f) => f.write_to_data(),
            Err(e) => Err(e),
        }
    }
}

proof fn lemma_nibbles(a: u8, b: u8)
    requires
        a < 16,
        b < 16,
    ensures
        (a | ((b % 16) * 16) as u8) % 16 == a,
        (a | ((b % 16) * 16) as u8) / 16 == b,
{
    assert((a | ((b % 16) * 16) as u8) % 16 == a && (a | ((b % 16) * 16) as u8) / 16 == b)
        by (bit_vector)
        requires
            a < 16,
            b < 16,
    ;
}

/// Unpacking packed 4-bit pixels gives them back, for an even number of
/// pixels each under 16.
proof fn lemma_pack_unpack(p: Seq<u8>)
    requires
        p.len() % 2 == 0,
        forall|i: int| 0 <= i < p.len() ==> #[trigger] p[i] < 16,
    ensures
        unpack_4bpp(pack_4bpp(p)) == p,
{
    let r = pack_4bpp(p);
    assert forall|i: int| 0 <= i < p.len() implies #[trigger] unpack_4bpp(r)[i] == p[i] by {
        let k = i / 2;
        lemma_nibbles(p[2 * k], p[2 * k + 1]);
        if i % 2 == 0 {
            assert(i == 2 * k);
        } else {
            assert(i == 2 * k + 1);
        }
    }
    assert(unpack_4bpp(r) =~= p);
}

#[verifier::rlimit(100)]
proof fn lemma_char_block_fields(
    h: u16,
    w: u16,
    tf: NtrTextureFormat,
    mt: NtrMappingType,
    cf: NtrCharacterFormat,
    raw: Seq<u8>,
)
    requires
        raw.len() <= U32_MAX,
    ensures
        ({
            let c = char_block_bytes(h, w, tf, mt, cf, raw);
            &&& c.len() == 24 + raw.len()
            &&& u16_at(c, 0) == h
            &&& u16_at(c, 2) == w
            &&& u16_at(c, 4) == tf.code()
            &&& u32_at(c, 8) == mt.ncgr_code()
            &&& u32_at(c, 12) == cf.code()
            &&& u32_at(c, 16) == raw.len()
            &&& u32_at(c, 20) == 0x18
            &&& c.subrange(24, 24 + raw.len() as int) == raw
        }),
{
    let c = char_block_bytes(h, w, tf, mt, cf, raw);
    let a0 = u16_bytes(h);
    let a1 = u16_bytes(w);
    let a2 = u16_bytes(tf.code());
    let a3 = u16_bytes(0);
    let a4 = u32_bytes(mt.ncgr_code());
    let a5 = u32_bytes(cf.code());
    let a6 = u32_bytes(raw.len() as u32);
    let a7 = u32_bytes(0x18);
    let e = Seq::<u8>::empty();
    assert(c =~= e + a0 + (a1 + a2 + a3 + a4 + a5 + a6 + a7 + raw));
    lemma_u16_at_concat(e, h, a1 + a2 + a3 + a4 + a5 + a6 + a7 + raw);
    assert(c =~= a0 + a1 + (a2 + a3 + a4 + a5 + a6 + a7 + raw));
    lemma_u16_at_concat(a0, w, a2 + a3 + a4 + a5 + a6 + a7 + raw);
    assert(c =~= (a0 + a1) + a2 + (a3 + a4 + a5 + a6 + a7 + raw));
    lemma_u16_at_concat(a0 + a1, tf.code(), a3 + a4 + a5 + a6 + a7 + raw);
    assert(c =~= (a0 + a1 + a2 + a3) + a4 + (a5 + a6 + a7 + raw));
    lemma_u32_at_concat(a0 + a1 + a2 + a3, mt.ncgr_code(), a5 + a6 + a7 + raw);
    assert(c =~= (a0 + a1 + a2 + a3 + a4) + a5 + (a6 + a7 + raw));
    lemma_u32_at_concat(a0 + a1 + a2 + a3 + a4, cf.code(), a6 + a7 + raw);
    assert(c =~= (a0 + a1 + a2 + a3 + a4 + a5) + a6 + (a7 + raw));
    lemma_u32_at_concat(a0 + a1 + a2 + a3 + a4 + a5, raw.len() as u32, a7 + raw);
    assert(c =~= (a0 + a1 + a2 + a3 + a4 + a5 + a6) + a7 + raw);
    lemma_u32_at_concat(a0 + a1 + a2 + a3 + a4 + a5 + a6, 0x18, raw);
    assert(c.subrange(24, 24 + raw.len() as int) =~= raw);
}

/// Graphics that can be written and read back unchanged: well formed, fitting
/// the blocks' fields, a 2D grid under 0xFFFF tiles each way (0xFFFF marks 1D
/// modes), and 16-color pixels under 16 (four bits hold no more).
pub open spec fn ncgr_legal(g: Ncgr) -> bool {
    let p = g.character_data.flat_pixels();
    &&& g.wf()
    &&& ncgr_writable(g)
    &&& (g.mapping_data matches MappingData::TwoD(w, h) ==> w < 0xFFFF && h < 0xFFFF)
    &&& (g.texture_format == NtrTextureFormat::Palette16 ==> forall|i: int|
        0 <= i < p.len() ==> #[trigger] p[i] < 16)
    &&& g.raw_view().len() * 2 <= usize::MAX
}

proof fn lemma_flat_len(cd: CharacterData)
    requires
        cd is Character,
    ensures
        cd.flat_pixels().len() % 64 == 0,
{
    match cd {
        CharacterData::Character(ts, _) => {
            let n = tile_views(ts@).len() as int;
            assert(cd.flat_pixels().len() == n * 64);
            vstd::arithmetic::div_mod::lemma_mod_multiples_basic(n, 64);
        },
        CharacterData::Bitmap(_) => {},
    }
}

/// Writing legal graphics to bytes and reading the bytes back gives the same
/// graphics: revision, format, mapping, layout and pixels.
#[verifier::rlimit(40)]
pub proof fn lemma_ncgr_file_round_trip(g: Ncgr)
    requires
        ncgr_legal(g),
        encodable(ncgr_file_view(g)),
    ensures
        parse_file(file_bytes(ncgr_file_view(g))) == Some(ncgr_file_view(g)),
        ncgr_file_ok(ncgr_file_view(g)),
        forall|h: Ncgr|
            ncgr_read_from(ncgr_file_view(g), h) ==> h.version == g.version && h.texture_format
                == g.texture_format && h.mapping_data == g.mapping_data
                && h.character_data.format() == g.character_data.format()
                && h.character_data.flat_pixels() == g.character_data.flat_pixels()
                && h.include_cpos == g.include_cpos,
{
    let v = ncgr_file_view(g);
    let (w, hh) = stored_grid(g.mapping_data);
    let raw = g.raw_view();
    let p = g.character_data.flat_pixels();
    let c = v.blocks[0].contents;
    assert(v.blocks[0].id.len() == 4);
    assert(v.blocks.len() > 1 ==> v.blocks[1].id.len() == 4);
    lemma_container_round_trip(v);
    lemma_char_block_fields(
        hh,
        w,
        g.texture_format,
        g.mapping_data.mapping_type(),
        g.character_data.format(),
        raw,
    );
    assert(c.subrange(24, 24 + u32_at(c, 16)) == raw);
    if g.texture_format == NtrTextureFormat::Palette16 {
        lemma_pack_unpack(p);
    }
    assert(char_payload_format(c) == g.texture_format);
    assert(char_payload_pixels(c) == p);
    if g.character_data.format() != NtrCharacterFormat::Bitmap {
        lemma_flat_len(g.character_data);
    }
    assert(exists|m: NtrMappingType| m.ncgr_code() == u32_at(c, 8));
    assert(exists|f: NtrCharacterFormat| f.code() == u32_at(c, 12));
    assert(char_payload_ok(c));
    assert forall|h: Ncgr| ncgr_read_from(v, h) implies h.version == g.version
        && h.texture_format == g.texture_format && h.mapping_data == g.mapping_data
        && h.character_data.format() == g.character_data.format()
        && h.character_data.flat_pixels() == g.character_data.flat_pixels() && h.include_cpos
        == g.include_cpos by {
        lemma_mapping_code(h.mapping_data.mapping_type(), g.mapping_data.mapping_type());
        lemma_format_code(h.character_data.format(), g.character_data.format());
    }
}

proof fn lemma_mapping_code(a: NtrMappingType, b: NtrMappingType)
    requires
        a.ncgr_code() == b.ncgr_code(),
    ensures
        a == b,
{
}

proof fn lemma_format_code(a: NtrCharacterFormat, b: NtrCharacterFormat)
    requires
        a.code() == b.code(),
    ensures
        a == b,
{
}

impl NtrFormat for Ncgr {
    fn read_from_ntr_file(file: &NtrFile) -> Result<Ncgr, NtrError> {
        Ncgr::read_from_ntr_file(file)
    }

    fn write_to_ntr_file(&self) -> Result<NtrFile, NtrError> {
        Ncgr::write_to_ntr_file(self)
    }
}

} // verus!
