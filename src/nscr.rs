use vstd::prelude::*;

use crate::bytes::{copy_range, read_u16, read_u32, u16_at, u32_at};
use crate::enums::NtrTextureFormat;
use crate::error::NtrError;
use crate::image::{pixels_of, pixels_to_tiles, tile_views, tiles_of, tiles_to_pixels, Image, Tile};
use crate::ntr::{parse_file, tag_is, NtrFile, NtrFileView, NtrFormat};

verus! {

/// One tile of a screen: which tile, its flips and its 16-color palette bank.
#[derive(Clone, Copy, Debug, PartialEq, Eq, Structural)]
pub struct ScreenEntry {
    pub tile_index: usize,
    pub h_flip: bool,
    pub v_flip: bool,
    pub palette_index: usize,
}

/// The entry that a 16-bit word holds: tile index in bits 0-9, h-flip (10),
/// v-flip (11), palette bank (12-15).
pub open spec fn entry_of_word(v: u16) -> ScreenEntry {
    ScreenEntry {
        tile_index: (v & 0x3FF) as usize,
        h_flip: (v >> 10u16) & 1 != 0,
        v_flip: (v >> 11u16) & 1 != 0,
        palette_index: ((v >> 12u16) & 0xF) as usize,
    }
}

/// The entries of screen data: 16-bit words for background types 0 and 2;
/// for type 1, one byte per entry that is the tile index alone, unflipped and
/// in palette bank 0.
pub open spec fn entries_of(raw: Seq<u8>, bg_type: u16) -> Seq<ScreenEntry> {
    if bg_type == 1 {
        Seq::new(
            raw.len(),
            |i: int| ScreenEntry { tile_index: raw[i] as usize, h_flip: false, v_flip: false, palette_index: 0 },
        )
    } else {
        Seq::new(raw.len() / 2, |i: int| entry_of_word(u16_at(raw, 2 * i)))
    }
}

impl ScreenEntry {
    pub fn from_u16(value: u16) -> (r: ScreenEntry)
        ensures
            r == entry_of_word(value),
    {
        ScreenEntry {
            tile_index: (value & 0x3FF) as usize,
            h_flip: (value >> 10u16) & 1 != 0,
            v_flip: (value >> 11u16) & 1 != 0,
            palette_index: ((value >> 12u16) & 0xF) as usize,
        }
    }
}

/// A screen: a grid of tile references `width_in_tiles` wide.
pub struct Nscr {
    pub width_in_tiles: usize,
    pub texture_format: NtrTextureFormat,
    pub screen_entries: Vec<ScreenEntry>,
}

/// Whether a screen block payload is well formed: width and height in pixels
/// (multiples of 8), texture selector (0 for 16 colors, 1 or 2 for 256),
/// background type (0, 1 or 2), the size of the entries, then the entries. The
/// size must cover the screen exactly: two bytes per tile for types 0 and 2,
/// one for type 1.
pub open spec fn scrn_ok(c: Seq<u8>) -> bool {
    let w = u16_at(c, 0) as int;
    let h = u16_at(c, 2) as int;
    let size = u32_at(c, 8) as int;
    &&& c.len() >= 12
    &&& w % 8 == 0
    &&& h % 8 == 0
    &&& u16_at(c, 4) <= 2
    &&& u16_at(c, 6) <= 2
    &&& (u16_at(c, 6) == 1 ==> size * 64 == w * h)
    &&& (u16_at(c, 6) != 1 ==> size * 32 == w * h)
    &&& 12 + size <= c.len()
    &&& (u16_at(c, 6) != 1 ==> size % 2 == 0)
}

/// The entries of a screen block payload.
pub open spec fn scrn_entries(c: Seq<u8>) -> Seq<ScreenEntry> {
    entries_of(c.subrange(12, 12 + u32_at(c, 8) as int), u16_at(c, 6))
}

/// A tile mirrored left to right.
pub open spec fn flip_h(t: Seq<u8>) -> Seq<u8> {
    Seq::new(64, |k: int| t[(k / 8) * 8 + 7 - k % 8])
}

/// A tile mirrored top to bottom.
pub open spec fn flip_v(t: Seq<u8>) -> Seq<u8> {
    Seq::new(64, |k: int| t[(7 - k / 8) * 8 + k % 8])
}

/// Mirrors a tile left to right.
pub fn flip_tile_horizontal(tile: &mut Tile)
    ensures
        final(tile)@ == flip_h(old(tile)@),
{
    let orig: Tile = *tile;
    let mut k: usize = 0;
    while k < 64
        invariant
            k <= 64,
            forall|j: int| 0 <= j < k ==> tile@[j] == orig@[(j / 8) * 8 + 7 - j % 8],
        decreases 64 - k,
    {
        tile[k] = orig[(k / 8) * 8 + 7 - k % 8];
        k = k + 1;
    }
    assert(tile@ =~= flip_h(orig@));
}

/// Mirrors a tile top to bottom.
pub fn flip_tile_vertical(tile: &mut Tile)
    ensures
        final(tile)@ == flip_v(old(tile)@),
{
    let orig: Tile = *tile;
    let mut k: usize = 0;
    while k < 64
        invariant
            k <= 64,
            forall|j: int| 0 <= j < k ==> tile@[j] == orig@[(7 - j / 8) * 8 + j % 8],
        decreases 64 - k,
    {
        tile[k] = orig[(7 - k / 8) * 8 + k % 8];
        k = k + 1;
    }
    assert(tile@ =~= flip_v(orig@));
}

/// Whether a container holds a screen: tag `RCSN` and a single screen block
/// (tag `NRCS`).
pub open spec fn nscr_file_ok(f: NtrFileView) -> bool {
    &&& f.id == seq![0x52u8, 0x43, 0x53, 0x4E]
    &&& f.blocks.len() == 1
    &&& f.blocks[0].id == seq![0x4Eu8, 0x52, 0x43, 0x53]
    &&& scrn_ok(f.blocks[0].contents)
}

/// Whether a screen holds what a container holds.
pub open spec fn nscr_read_from(f: NtrFileView, s: Nscr) -> bool {
    let c = f.blocks[0].contents;
    &&& s.width_in_tiles == u16_at(c, 0) / 8
    &&& s.texture_format == if u16_at(c, 4) == 0 {
        NtrTextureFormat::Palette16
    } else {
        NtrTextureFormat::Palette256
    }
    &&& s.screen_entries@ == scrn_entries(c)
}

impl Nscr {
    /// The entries of screen data of a background type: 0 and 2 hold 16-bit
    /// words, 1 holds single bytes. Fails on another type or an odd number of
    /// bytes for words.
    pub fn read_screen_data(raw_data: &Vec<u8>, bg_type: u16) -> (r: Result<Vec<ScreenEntry>, NtrError>)
        ensures
            r is Ok <==> bg_type <= 2 && (bg_type != 1 ==> raw_data@.len() % 2 == 0),
            r matches Ok(es) ==> es@ == entries_of(raw_data@, bg_type),
    {
        if bg_type > 2 {
            return Err(NtrError::Unsupported);
        }
        let mut entries: Vec<ScreenEntry> = Vec::new();
        if bg_type == 1 {
            let mut i: usize = 0;
            while i < raw_data.len()
                invariant
                    bg_type == 1,
                    i <= raw_data@.len(),
                    entries@ == entries_of(raw_data@, bg_type).take(i as int),
                decreases raw_data@.len() - i,
            {
                entries.push(
                    ScreenEntry {
                        tile_index: raw_data[i] as usize,
                        h_flip: false,
                        v_flip: false,
                        palette_index: 0,
                    },
                );
                i = i + 1;
                assert(entries@ =~= entries_of(raw_data@, bg_type).take(i as int));
            }
            assert(entries_of(raw_data@, bg_type).take(i as int) =~= entries_of(
                raw_data@,
                bg_type,
            ));
        } else {
            if raw_data.len() % 2 != 0 {
                return Err(NtrError::Malformed);
            }
            let n = raw_data.len() / 2;
            let mut i: usize = 0;
            while i < n
                invariant
                    bg_type != 1,
                    n == raw_data@.len() / 2,
                    raw_data@.len() <= usize::MAX,
                    i <= n,
                    entries@ == entries_of(raw_data@, bg_type).take(i as int),
                decreases n - i,
            {
                let w = read_u16(raw_data.as_slice(), 2 * i).unwrap();
                entries.push(ScreenEntry::from_u16(w));
                i = i + 1;
                assert(entries@ =~= entries_of(raw_data@, bg_type).take(i as int));
            }
            assert(entries_of(raw_data@, bg_type).take(i as int) =~= entries_of(
                raw_data@,
                bg_type,
            ));
        }
        Ok(entries)
    }

    /// Reads a screen from a container: tag `RCSN` and a single screen block.
    pub fn read_from_ntr_file(file: &NtrFile) -> (r: Result<Nscr, NtrError>)
        ensures
            r is Ok <==> nscr_file_ok(file@),
            r matches Ok(s) ==> nscr_read_from(file@, s),
    {
        if !tag_is(&file.id, 0x52, 0x43, 0x53, 0x4E) || file.blocks.len() != 1 {
            return Err(NtrError::Malformed);
        }
        let block = &file.blocks[0];
        assert(file@.blocks[0] == block@);
        if !tag_is(&block.id, 0x4E, 0x52, 0x43, 0x53) {
            return Err(NtrError::Malformed);
        }
        let c = block.contents.as_slice();
        if c.len() < 12 {
            return Err(NtrError::Malformed);
        }
        let width = read_u16(c, 0).unwrap() as u64;
        let height = read_u16(c, 2).unwrap() as u64;
        if width % 8 != 0 || height % 8 != 0 {
            return Err(NtrError::Malformed);
        }
        let tf = read_u16(c, 4).unwrap();
        let texture_format = if tf == 0 {
            NtrTextureFormat::Palette16
        } else if tf == 1 || tf == 2 {
            NtrTextureFormat::Palette256
        } else {
            return Err(NtrError::Unsupported);
        };
        let bg_type = read_u16(c, 6).unwrap();
        let size = read_u32(c, 8).unwrap() as u64;
        assert(width * height <= 0xFFFF * 0xFFFF) by (nonlinear_arith)
            requires
                width <= 0xFFFF,
                height <= 0xFFFF,
        ;
        if bg_type == 1 {
            if size * 64 != width * height {
                return Err(NtrError::Malformed);
            }
        } else if bg_type == 0 || bg_type == 2 {
            if size * 32 != width * height {
                return Err(NtrError::Malformed);
            }
        } else {
            return Err(NtrError::Unsupported);
        }
        if size > (c.len() - 12) as u64 {
            return Err(NtrError::Malformed);
        }
        let raw = copy_range(c, 12, 12 + size as usize);
        let screen_entries = match Nscr::read_screen_data(&raw, bg_type) {
            Ok(es) => es,
            Err(e) => {
                return Err(e);
            },
        };
        Ok(Nscr { width_in_tiles: (width / 8) as usize, texture_format, screen_entries })
    }

    /// Decodes a screen from the bytes of a container.
    pub fn read_from_data(data: &[u8]) -> (r: Result<Nscr, NtrError>)
        ensures
            r is Ok <==> (parse_file(data@) matches Some(f) && nscr_file_ok(f)),
            r matches Ok(s) ==> nscr_read_from(parse_file(data@).unwrap(), s),
    {
        match NtrFile::read_from_data(data) {
            Ok(f) => Nscr::read_from_ntr_file(&f),
            Err(e) => Err(e),
        }
    }
}

/// The larger of two integers.
pub open spec fn max_int(a: int, b: int) -> int {
    if a >= b {
        a
    } else {
        b
    }
}

/// The largest pixel of a tile (-1 for none).
pub open spec fn tile_max(t: Seq<u8>) -> int
    decreases t.len(),
{
    if t.len() == 0 {
        -1
    } else {
        max_int(tile_max(t.drop_last()), t.last() as int)
    }
}

/// The highest palette bank that the entries use (-1 for none).
pub open spec fn max_bank(es: Seq<ScreenEntry>) -> int
    decreases es.len(),
{
    if es.len() == 0 {
        -1
    } else {
        max_int(max_bank(es.drop_last()), es.last().palette_index as int)
    }
}

/// The largest pixel of the tiles that entries in bank `b` use (-1 for none).
pub open spec fn bank_max_pixel(es: Seq<ScreenEntry>, ts: Seq<Seq<u8>>, b: int) -> int
    decreases es.len(),
{
    if es.len() == 0 {
        -1
    } else {
        let m = bank_max_pixel(es.drop_last(), ts, b);
        if es.last().palette_index == b {
            max_int(m, tile_max(ts[es.last().tile_index as int]))
        } else {
            m
        }
    }
}

/// How many colors the palette needs: the largest pixel used in the highest
/// bank, plus 16 for each bank below it.
pub open spec fn min_colors(es: Seq<ScreenEntry>, ts: Seq<Seq<u8>>) -> int {
    bank_max_pixel(es, ts, max_bank(es)) + max_bank(es) * 16
}

/// A tile's pixels as a texture format shows them: for 16 colors, each pixel
/// within its bank.
pub open spec fn shade(t: Seq<u8>, tf: NtrTextureFormat) -> Seq<u8> {
    if tf == NtrTextureFormat::Palette16 {
        t.map_values(|p: u8| p % 16)
    } else {
        t
    }
}

/// The tile that an entry puts on the screen: its tile, shaded, then flipped.
pub open spec fn arranged_tile(ts: Seq<Seq<u8>>, e: ScreenEntry, tf: NtrTextureFormat) -> Seq<u8> {
    let t0 = shade(ts[e.tile_index as int], tf);
    let t1 = if e.h_flip {
        flip_h(t0)
    } else {
        t0
    };
    if e.v_flip {
        flip_v(t1)
    } else {
        t1
    }
}

proof fn lemma_tile_max_bound(t: Seq<u8>)
    ensures
        -1 <= tile_max(t) <= 255,
        t.len() > 0 ==> tile_max(t) >= 0,
    decreases t.len(),
{
    if t.len() > 0 {
        lemma_tile_max_bound(t.drop_last());
    }
}

proof fn lemma_bank_max_bound(es: Seq<ScreenEntry>, ts: Seq<Seq<u8>>, b: int)
    requires
        forall|i: int| 0 <= i < es.len() ==> (#[trigger] es[i]).tile_index < ts.len(),
    ensures
        -1 <= bank_max_pixel(es, ts, b) <= 255,
    decreases es.len(),
{
    if es.len() > 0 {
        assert forall|i: int| 0 <= i < es.drop_last().len() implies (#[trigger] es.drop_last()[i]).tile_index
            < ts.len() by {
            assert(es.drop_last()[i] == es[i]);
        }
        lemma_bank_max_bound(es.drop_last(), ts, b);
        lemma_tile_max_bound(ts[es.last().tile_index as int]);
    }
}

fn tile_max_exec(t: &Tile) -> (r: u8)
    ensures
        r == tile_max(t@),
{
    let mut m: u8 = 0;
    let mut k: usize = 0;
    while k < 64
        invariant
            k <= 64,
            k > 0 ==> m == tile_max(t@.take(k as int)),
            k == 0 ==> m == 0,
        decreases 64 - k,
    {
        assert(t@.take(k + 1).drop_last() =~= t@.take(k as int));
        proof {
            lemma_tile_max_bound(t@.take(k as int));
            if k == 0 {
                assert(t@.take(0) =~= Seq::<u8>::empty());
                assert(tile_max(t@.take(0)) == -1);
            }
        }
        if k == 0 || t[k] > m {
            m = t[k];
        }
        k = k + 1;
    }
    assert(t@.take(64) =~= t@);
    m
}

/// The number of colors that a palette needs to show the screen: see `min_colors`.
pub fn min_colors_in_palette(screen_entries: &[ScreenEntry], tiles: &[Tile]) -> (r: usize)
    requires
        screen_entries@.len() > 0,
        forall|i: int|
            0 <= i < screen_entries@.len() ==> (#[trigger] screen_entries@[i]).tile_index
                < tiles@.len() && screen_entries@[i].palette_index < 16,
    ensures
        r == min_colors(screen_entries@, tile_views(tiles@)),
{
    let ghost es = screen_entries@;
    let ghost ts = tile_views(tiles@);
    let mut b: usize = 0;
    let mut i: usize = 0;
    while i < screen_entries.len()
        invariant
            es == screen_entries@,
            es.len() > 0,
            forall|k: int| 0 <= k < es.len() ==> (#[trigger] es[k]).palette_index < 16,
            i <= es.len(),
            i > 0 ==> b == max_bank(es.take(i as int)),
            b < 16,
            i == 0 ==> b == 0,
        decreases es.len() - i,
    {
        assert(es.take(i + 1).drop_last() =~= es.take(i as int));
        proof {
            if i == 0 {
                assert(es.take(0) =~= Seq::<ScreenEntry>::empty());
                assert(max_bank(es.take(0)) == -1);
            }
        }
        if i == 0 || screen_entries[i].palette_index > b {
            b = screen_entries[i].palette_index;
        }
        i = i + 1;
    }
    assert(es.take(es.len() as int) =~= es);
    let mut m: u8 = 0;
    let mut found = false;
    let mut i: usize = 0;
    while i < screen_entries.len()
        invariant
            es == screen_entries@,
            ts == tile_views(tiles@),
            forall|k: int| 0 <= k < es.len() ==> (#[trigger] es[k]).tile_index < tiles@.len(),
            i <= es.len(),
            found ==> m == bank_max_pixel(es.take(i as int), ts, b as int),
            !found ==> bank_max_pixel(es.take(i as int), ts, b as int) == -1,
            !found ==> m == 0,
        decreases es.len() - i,
    {
        assert(es.take(i + 1).drop_last() =~= es.take(i as int));
        let e = screen_entries[i];
        proof {
            lemma_bank_max_bound(es.take(i as int), ts, b as int);
            assert forall|k: int| 0 <= k < es.take(i as int).len() implies (#[trigger] es.take(
                i as int,
            )[k]).tile_index < ts.len() by {
                assert(es.take(i as int)[k] == es[k]);
            }
            lemma_bank_max_bound(es.take(i as int), ts, b as int);
            lemma_tile_max_bound(ts[e.tile_index as int]);
        }
        if e.palette_index == b {
            let tm = tile_max_exec(&tiles[e.tile_index]);
            assert(tiles@[e.tile_index as int]@ == ts[e.tile_index as int]);
            if !found || tm > m {
                m = tm;
            }
            found = true;
        }
        i = i + 1;
    }
    assert(es.take(es.len() as int) =~= es);
    proof {
        // the highest bank is used by some entry, so its pixels count
        lemma_max_bank_attained(es);
        lemma_bank_used(es, ts, b as int);
    }
    (m as usize) + b * 16
}

proof fn lemma_max_bank_attained(es: Seq<ScreenEntry>)
    requires
        es.len() > 0,
    ensures
        exists|i: int| 0 <= i < es.len() && (#[trigger] es[i]).palette_index == max_bank(es),
    decreases es.len(),
{
    if es.len() == 1 {
        assert(es.drop_last() =~= Seq::<ScreenEntry>::empty());
        assert(max_bank(es.drop_last()) == -1);
        assert(es[0].palette_index == max_bank(es));
    } else {
        lemma_max_bank_attained(es.drop_last());
        let i = choose|i: int| 0 <= i < es.drop_last().len() && (#[trigger] es.drop_last()[i]).palette_index
            == max_bank(es.drop_last());
        if max_bank(es) == es.last().palette_index {
            assert(es[es.len() - 1].palette_index == max_bank(es));
        } else {
            assert(es[i] == es.drop_last()[i]);
        }
    }
}

proof fn lemma_bank_used(es: Seq<ScreenEntry>, ts: Seq<Seq<u8>>, b: int)
    requires
        exists|i: int| 0 <= i < es.len() && (#[trigger] es[i]).palette_index == b,
        forall|i: int| 0 <= i < es.len() ==> (#[trigger] es[i]).tile_index < ts.len(),
        forall|t: int| 0 <= t < ts.len() ==> (#[trigger] ts[t]).len() == 64,
    ensures
        bank_max_pixel(es, ts, b) >= 0,
    decreases es.len(),
{
    let i = choose|i: int| 0 <= i < es.len() && (#[trigger] es[i]).palette_index == b;
    lemma_tile_max_bound(ts[es.last().tile_index as int]);
    if i == es.len() - 1 {
        assert(es.last().palette_index == b);
    } else {
        assert(es.drop_last()[i] == es[i]);
        assert forall|k: int| 0 <= k < es.drop_last().len() implies (#[trigger] es.drop_last()[k]).tile_index
            < ts.len() by {
            assert(es.drop_last()[k] == es[k]);
        }
        lemma_bank_used(es.drop_last(), ts, b);
    }
}

/// The tiles that entries put on the screen, in order.
pub open spec fn arrangement(es: Seq<ScreenEntry>, ts: Seq<Seq<u8>>, tf: NtrTextureFormat) -> Seq<
    Seq<u8>,
> {
    Seq::new(es.len(), |i: int| arranged_tile(ts, es[i], tf))
}

fn shade_tile(t: &Tile, tf: NtrTextureFormat) -> (r: Tile)
    ensures
        r@ == shade(t@, tf),
{
    if tf == NtrTextureFormat::Palette16 {
        let mut out: Tile = *t;
        let mut k: usize = 0;
        while k < 64
            invariant
                k <= 64,
                forall|j: int| 0 <= j < k ==> out@[j] == t@[j] % 16,
            decreases 64 - k,
        {
            out[k] = t[k] % 16;
            k = k + 1;
        }
        assert(out@ =~= shade(t@, tf));
        out
    } else {
        *t
    }
}

impl Nscr {
    /// Whether the screen can be drawn with a tile set: the set carries a
    /// palette and cuts into whole tiles, every entry names one of its tiles
    /// and a bank under 16, the palette has enough colors (`min_colors`),
    /// 256-color screens use bank 0 only, and the entries fill whole rows.
    pub open spec fn drawable_with(&self, tileset: &Image) -> bool {
        let es = self.screen_entries@;
        let w = self.width_in_tiles as int;
        let ts = tiles_of(tileset.pixels@, tileset.width as int / 8);
        &&& tileset.palette is Some
        &&& tileset.width % 8 == 0
        &&& tileset.pixels@.len() % 64 == 0
        &&& (tileset.pixels@.len() as int / 64) % (tileset.width as int / 8) == 0
        &&& es.len() > 0
        &&& forall|i: int|
            0 <= i < es.len() ==> (#[trigger] es[i]).tile_index < ts.len() && es[i].palette_index
                < 16
        &&& tileset.palette.unwrap().colors@.len() >= min_colors(es, ts)
        &&& self.texture_format.is_indexed()
        &&& (self.texture_format == NtrTextureFormat::Palette256 ==> forall|i: int|
            0 <= i < es.len() ==> (#[trigger] es[i]).palette_index == 0)
        &&& w > 0
        &&& es.len() as int % w == 0
        &&& es.len() * 64 <= usize::MAX
        &&& w * 8 <= usize::MAX
    }

    /// Draws the screen with a tile set that carries its palette: each entry's
    /// tile, reduced to its bank for 16 colors and flipped as the entry says,
    /// laid out `width_in_tiles` tiles wide.
    pub fn to_image(&self, tileset: &Image) -> (r: Result<Image, NtrError>)
        requires
            tileset.wf(),
        ensures
            r is Ok <==> self.drawable_with(tileset),
            r matches Ok(img) ==> {
                &&& img.width == self.width_in_tiles * 8
                &&& img.pixels@ == pixels_of(
                    arrangement(
                        self.screen_entries@,
                        tiles_of(tileset.pixels@, tileset.width as int / 8),
                        self.texture_format,
                    ),
                    self.width_in_tiles as int,
                )
                &&& img.palette matches Some(p) && p.colors@ == tileset.palette.unwrap().colors@
            },
    {
        let ghost es = self.screen_entries@;
        let palette = match tileset.palette() {
            Some(p) => p,
            None => {
                return Err(NtrError::Precondition);
            },
        };
        if tileset.width % 8 != 0 || tileset.pixels.len() % 64 != 0 {
            return Err(NtrError::Precondition);
        }
        let wt = tileset.width_in_tiles();
        if (tileset.pixels.len() / 64) % wt != 0 {
            return Err(NtrError::Precondition);
        }
        let tiles = pixels_to_tiles(tileset.pixels(), wt);
        let ghost ts = tile_views(tiles@);
        let n = self.screen_entries.len();
        if n == 0 {
            return Err(NtrError::Precondition);
        }
        let mut i: usize = 0;
        while i < n
            invariant
                n == es.len(),
                es == self.screen_entries@,
                ts == tile_views(tiles@),
                ts == tiles_of(tileset.pixels@, tileset.width as int / 8),
                i <= n,
                forall|k: int|
                    0 <= k < i ==> (#[trigger] es[k]).tile_index < ts.len() && es[k].palette_index
                        < 16,
            decreases n - i,
        {
            let e = self.screen_entries[i];
            if e.tile_index >= tiles.len() || e.palette_index >= 16 {
                assert(!(es[i as int].tile_index < ts.len() && es[i as int].palette_index < 16));
                return Err(NtrError::Precondition);
            }
            i = i + 1;
        }
        if palette.colors.len() < min_colors_in_palette(self.screen_entries.as_slice(), tiles.as_slice()) {
            return Err(NtrError::Precondition);
        }
        match self.texture_format {
            NtrTextureFormat::Palette16 => {},
            NtrTextureFormat::Palette256 => {
                let mut i: usize = 0;
                while i < n
                    invariant
                        n == es.len(),
                        es == self.screen_entries@,
                        self.texture_format == NtrTextureFormat::Palette256,
                        i <= n,
                        forall|k: int| 0 <= k < i ==> (#[trigger] es[k]).palette_index == 0,
                    decreases n - i,
                {
                    if self.screen_entries[i].palette_index != 0 {
                        assert(es[i as int].palette_index != 0);
                        return Err(NtrError::Precondition);
                    }
                    i = i + 1;
                }
            },
            _ => {
                return Err(NtrError::Unsupported);
            },
        }
        let w = self.width_in_tiles;
        if w == 0 || n % w != 0 || n > usize::MAX / 64 || w > usize::MAX / 8 {
            return Err(NtrError::Precondition);
        }
        let tf = self.texture_format;
        let mut arranged: Vec<Tile> = Vec::new();
        let mut i: usize = 0;
        while i < n
            invariant
                n == es.len(),
                es == self.screen_entries@,
                ts == tile_views(tiles@),
                tf == self.texture_format,
                forall|k: int| 0 <= k < n ==> (#[trigger] es[k]).tile_index < ts.len(),
                i <= n,
                tile_views(arranged@) == arrangement(es, ts, tf).take(i as int),
            decreases n - i,
        {
            let e = self.screen_entries[i];
            let mut t = shade_tile(&tiles[e.tile_index], tf);
            if e.h_flip {
                flip_tile_horizontal(&mut t);
            }
            if e.v_flip {
                flip_tile_vertical(&mut t);
            }
            assert(t@ == arranged_tile(ts, es[i as int], tf));
            let ghost prev = tile_views(arranged@);
            arranged.push(t);
            assert(tile_views(arranged@) =~= prev.push(t@));
            i = i + 1;
            assert(tile_views(arranged@) =~= arrangement(es, ts, tf).take(i as int));
        }
        assert(arrangement(es, ts, tf).take(n as int) =~= arrangement(es, ts, tf));
        let pixels = tiles_to_pixels(arranged.as_slice(), w);
        proof {
            let q = (n / w) as int;
            assert(n as int == (w as int) * q) by (nonlinear_arith)
                requires
                    n as int % w as int == 0,
                    w > 0,
                    q == n as int / w as int,
            ;
            assert((q * 8) * (w as int * 8) == n * 64) by (nonlinear_arith)
                requires
                    n as int == (w as int) * q,
            ;
            vstd::arithmetic::div_mod::lemma_mod_multiples_basic(q * 8, w as int * 8);
        }
        Ok(Image::new(w * 8, pixels.as_slice(), Some(palette)))
    }
}

impl NtrFormat for Nscr {
    fn read_from_ntr_file(file: &NtrFile) -> Result<Nscr, NtrError> {
        Nscr::read_from_ntr_file(file)
    }

    /// Screens are read only: how their entries are written back is not settled.
    fn write_to_ntr_file(&self) -> Result<NtrFile, NtrError> {
        Err(NtrError::Unsupported)
    }
}

} // verus!
