use vstd::prelude::*;

use crate::palette::Palette;

verus! {

/// Side of a square tile, in pixels.
pub const TILE_LENGTH: usize = 8;

/// An 8x8 tile of palette indices, stored row by row.
pub type Tile = [u8; 64];

/// Where pixel `k` of tile `t` lies in a picture `w` tiles wide, scanned row by
/// row; tiles are numbered left to right, top to bottom.
pub open spec fn tile_pixel_index(w: int, t: int, k: int) -> int {
    ((t / w) * 8 + k / 8) * (w * 8) + (t % w) * 8 + k % 8
}

/// The tile that pixel `i` of a picture `w` tiles wide falls in.
pub open spec fn pixel_tile(w: int, i: int) -> int {
    ((i / (w * 8)) / 8) * w + (i % (w * 8)) / 8
}

/// The place of pixel `i` inside its tile.
pub open spec fn pixel_in_tile(w: int, i: int) -> int {
    ((i / (w * 8)) % 8) * 8 + (i % (w * 8)) % 8
}

/// The tiles of a picture `w` tiles wide.
pub open spec fn tiles_of(p: Seq<u8>, w: int) -> Seq<Seq<u8>> {
    Seq::new(
        (p.len() / 64) as nat,
        |t: int| Seq::new(64, |k: int| p[tile_pixel_index(w, t, k)]),
    )
}

/// The picture, `w` tiles wide, that tiles make.
pub open spec fn pixels_of(ts: Seq<Seq<u8>>, w: int) -> Seq<u8> {
    Seq::new(ts.len() * 64, |i: int| ts[pixel_tile(w, i)][pixel_in_tile(w, i)])
}

/// The contents of a list of tiles.
pub open spec fn tile_views(ts: Seq<Tile>) -> Seq<Seq<u8>> {
    ts.map_values(|t: Tile| t@)
}

proof fn lemma_tile_pixel_index_bound(w: int, n: int, t: int, k: int)
    requires
        w > 0,
        n % w == 0,
        0 <= t < n,
        0 <= k < 64,
    ensures
        0 <= tile_pixel_index(w, t, k) < 64 * n,
{
    let r = t / w;
    let c = t % w;
    assert(t == r * w + c && 0 <= c < w) by (nonlinear_arith)
        requires
            w > 0,
            r == t / w,
            c == t % w,
    ;
    assert(n == (n / w) * w) by (nonlinear_arith)
        requires
            w > 0,
            n % w == 0,
    ;
    assert(r + 1 <= n / w) by (nonlinear_arith)
        requires
            t == r * w + c,
            0 <= c < w,
            t < n,
            n == (n / w) * w,
            w > 0,
    ;
    assert(0 <= r) by (nonlinear_arith)
        requires
            w > 0,
            t >= 0,
            r == t / w,
    ;
    assert(0 <= (r * 8 + k / 8) * (w * 8) + c * 8 + k % 8 < 64 * n) by (nonlinear_arith)
        requires
            0 <= r,
            r + 1 <= n / w,
            n == (n / w) * w,
            0 <= c < w,
            0 <= k < 64,
            w > 0,
    ;
}

proof fn lemma_pixel_tile_bound(w: int, n: int, i: int)
    requires
        w > 0,
        n % w == 0,
        0 <= i < 64 * n,
    ensures
        0 <= pixel_tile(w, i) < n,
        0 <= pixel_in_tile(w, i) < 64,
{
    let row = i / (w * 8);
    let col = i % (w * 8);
    assert(n == (n / w) * w) by (nonlinear_arith)
        requires
            w > 0,
            n % w == 0,
    ;
    assert(0 <= row < 8 * (n / w) && 0 <= col < w * 8) by (nonlinear_arith)
        requires
            w > 0,
            row == i / (w * 8),
            col == i % (w * 8),
            0 <= i < 64 * n,
            n == (n / w) * w,
    ;
    assert(0 <= (row / 8) * w + col / 8 < n) by (nonlinear_arith)
        requires
            w > 0,
            0 <= row < 8 * (n / w),
            0 <= col < w * 8,
            n == (n / w) * w,
    ;
}

/// Tile-then-pixel and pixel-then-tile numbering agree.
proof fn lemma_index_inverse(w: int, i: int)
    requires
        w > 0,
        i >= 0,
    ensures
        tile_pixel_index(w, pixel_tile(w, i), pixel_in_tile(w, i)) == i,
{
    let row = i / (w * 8);
    let col = i % (w * 8);
    let t = pixel_tile(w, i);
    let k = pixel_in_tile(w, i);
    assert(row >= 0 && 0 <= col < w * 8 && i == row * (w * 8) + col) by (nonlinear_arith)
        requires
            w > 0,
            i >= 0,
            row == i / (w * 8),
            col == i % (w * 8),
    ;
    assert(t / w == row / 8 && t % w == col / 8) by (nonlinear_arith)
        requires
            w > 0,
            row >= 0,
            0 <= col < w * 8,
            t == (row / 8) * w + col / 8,
    ;
    assert(k / 8 == row % 8 && k % 8 == col % 8) by (nonlinear_arith)
        requires
            row >= 0,
            col >= 0,
            k == (row % 8) * 8 + col % 8,
    ;
    assert(((row / 8) * 8 + row % 8) * (w * 8) + (col / 8) * 8 + col % 8 == i) by (nonlinear_arith)
        requires
            row >= 0,
            col >= 0,
            i == row * (w * 8) + col,
    ;
}

proof fn lemma_index_inverse2(w: int, n: int, t: int, k: int)
    requires
        w > 0,
        n % w == 0,
        0 <= t < n,
        0 <= k < 64,
    ensures
        pixel_tile(w, tile_pixel_index(w, t, k)) == t,
        pixel_in_tile(w, tile_pixel_index(w, t, k)) == k,
{
    let r = t / w;
    let c = t % w;
    let row = r * 8 + k / 8;
    let col = c * 8 + k % 8;
    let i = tile_pixel_index(w, t, k);
    assert(t == r * w + c && 0 <= c < w && r >= 0) by (nonlinear_arith)
        requires
            w > 0,
            t >= 0,
            r == t / w,
            c == t % w,
    ;
    assert(0 <= col < w * 8 && row >= 0) by (nonlinear_arith)
        requires
            0 <= c < w,
            r >= 0,
            0 <= k < 64,
            col == c * 8 + k % 8,
            row == r * 8 + k / 8,
    ;
    assert(i / (w * 8) == row && i % (w * 8) == col) by (nonlinear_arith)
        requires
            w > 0,
            i == row * (w * 8) + col,
            0 <= col < w * 8,
            row >= 0,
    ;
    assert(row / 8 == r && row % 8 == k / 8) by (nonlinear_arith)
        requires
            row == r * 8 + k / 8,
            0 <= k < 64,
            r >= 0,
    ;
    assert(col / 8 == c && col % 8 == k % 8) by (nonlinear_arith)
        requires
            col == c * 8 + k % 8,
            0 <= k < 64,
            c >= 0,
    ;
    assert((k / 8) * 8 + k % 8 == k) by (nonlinear_arith)
        requires
            0 <= k < 64,
    ;
}

/// Cutting a picture into tiles and putting the tiles back together gives the
/// picture back, for every picture whose pixel count is a multiple of 64 and
/// whose tile count is a multiple of the width in tiles.
pub proof fn lemma_tiles_round_trip(p: Seq<u8>, w: int)
    requires
        w > 0,
        p.len() % 64 == 0,
        (p.len() as int / 64) % w == 0,
    ensures
        pixels_of(tiles_of(p, w), w) == p,
{
    let ts = tiles_of(p, w);
    let n = p.len() / 64;
    assert forall|i: int| 0 <= i < p.len() implies #[trigger] pixels_of(ts, w)[i] == p[i] by {
        lemma_pixel_tile_bound(w, n as int, i);
        lemma_index_inverse(w, i);
    }
    assert(pixels_of(ts, w) =~= p);
}

/// Putting tiles together and cutting the picture up again gives the tiles back.
pub proof fn lemma_pixels_round_trip(ts: Seq<Seq<u8>>, w: int)
    requires
        w > 0,
        ts.len() as int % w == 0,
        forall|t: int| 0 <= t < ts.len() ==> (#[trigger] ts[t]).len() == 64,
    ensures
        tiles_of(pixels_of(ts, w), w) == ts,
{
    let p = pixels_of(ts, w);
    let n = ts.len() as int;
    assert(p.len() / 64 == n);
    assert forall|t: int| 0 <= t < n implies #[trigger] tiles_of(p, w)[t] == ts[t] by {
        assert forall|k: int| 0 <= k < 64 implies tiles_of(p, w)[t][k] == ts[t][k] by {
            lemma_tile_pixel_index_bound(w, n, t, k);
            lemma_index_inverse2(w, n, t, k);
        }
        assert(tiles_of(p, w)[t] =~= ts[t]);
    }
    assert(tiles_of(p, w) =~= ts);
}

/// Cuts a picture `width_in_tiles` tiles wide into 8x8 tiles, left to right and
/// top to bottom.
pub fn pixels_to_tiles(pixels: &[u8], width_in_tiles: usize) -> (r: Vec<Tile>)
    requires
        width_in_tiles > 0,
        pixels@.len() % 64 == 0,
        (pixels@.len() as int / 64) % width_in_tiles as int == 0,
    ensures
        tile_views(r@) == tiles_of(pixels@, width_in_tiles as int),
{
    let n = pixels.len() / 64;
    let w = width_in_tiles;
    let mut tiles: Vec<Tile> = Vec::new();
    let mut t: usize = 0;
    while t < n
        invariant
            n == pixels@.len() / 64,
            pixels@.len() % 64 == 0,
            pixels@.len() <= usize::MAX,
            w == width_in_tiles,
            w > 0,
            n as int % w as int == 0,
            t <= n,
            tiles@.len() == t,
            forall|j: int|
                0 <= j < t ==> (#[trigger] tiles@[j])@ == tiles_of(pixels@, w as int)[j],
        decreases n - t,
    {
        let mut tile: Tile = [0u8; 64];
        let mut k: usize = 0;
        while k < 64
            invariant
                n == pixels@.len() / 64,
                pixels@.len() % 64 == 0,
                pixels@.len() <= usize::MAX,
                w > 0,
                n as int % w as int == 0,
                t < n,
                k <= 64,
                forall|j: int|
                    0 <= j < k ==> tile@[j] == pixels@[tile_pixel_index(w as int, t as int, j)],
            decreases 64 - k,
        {
            proof {
                lemma_tile_pixel_index_bound(w as int, n as int, t as int, k as int);
                assert(w <= n && t / w <= t) by (nonlinear_arith)
                    requires
                        n as int % w as int == 0,
                        t < n,
                        w > 0,
                ;
                assert(((t / w) * 8 + k / 8) <= ((t / w) * 8 + k / 8) * (w * 8)) by (nonlinear_arith)
                    requires
                        w > 0,
                ;
            }
            let row = (t / w) * 8 + k / 8;
            let row_start = row * (w * 8);
            let idx = row_start + (t % w) * 8 + k % 8;
            tile[k] = pixels[idx];
            k = k + 1;
        }
        assert(tile@ =~= tiles_of(pixels@, w as int)[t as int]);
        tiles.push(tile);
        t = t + 1;
    }
    assert(tile_views(tiles@) =~= tiles_of(pixels@, w as int));
    tiles
}

/// Puts tiles back together into a picture `width_in_tiles` tiles wide.
pub fn tiles_to_pixels(tiles: &[Tile], width_in_tiles: usize) -> (r: Vec<u8>)
    requires
        width_in_tiles > 0,
        tiles@.len() as int % width_in_tiles as int == 0,
        tiles@.len() * 64 <= usize::MAX,
    ensures
        r@ == pixels_of(tile_views(tiles@), width_in_tiles as int),
{
    let n = tiles.len();
    let w = width_in_tiles;
    let total = n * 64;
    let ghost ts = tile_views(tiles@);
    let mut pixels: Vec<u8> = Vec::new();
    let mut i: usize = 0;
    while i < total
        invariant
            ts == tile_views(tiles@),
            n == tiles@.len(),
            total == n * 64,
            w == width_in_tiles,
            w > 0,
            n as int % w as int == 0,
            i <= total,
            pixels@ == pixels_of(ts, w as int).subrange(0, i as int),
        decreases total - i,
    {
        proof {
            lemma_pixel_tile_bound(w as int, n as int, i as int);
            assert(w <= n) by (nonlinear_arith)
                requires
                    n as int % w as int == 0,
                    n > 0,
                    w > 0,
            ;
        }
        let row = i / (w * 8);
        let col = i % (w * 8);
        let t = (row / 8) * w + col / 8;
        let k = (row % 8) * 8 + col % 8;
        pixels.push(tiles[t][k]);
        i = i + 1;
        assert(pixels@ =~= pixels_of(ts, w as int).subrange(0, i as int));
    }
    assert(pixels_of(ts, w as int).subrange(0, total as int) =~= pixels_of(ts, w as int));
    pixels
}

/// A picture of palette indices: its width and its pixels row by row, and the
/// palette it goes with, if any. The height follows from the two.
#[derive(Clone)]
pub struct Image {
    pub width: usize,
    pub pixels: Vec<u8>,
    pub palette: Option<Palette>,
}

impl Image {
    /// Whether the pixels fill whole rows.
    pub open spec fn wf(&self) -> bool {
        self.width > 0 && self.pixels@.len() as int % self.width as int == 0
    }

    /// The height in pixels.
    pub open spec fn spec_height(&self) -> int {
        self.pixels@.len() as int / self.width as int
    }

    pub fn new(width: usize, pixels: &[u8], palette: Option<Palette>) -> (r: Self)
        requires
            width > 0,
            pixels@.len() as int % width as int == 0,
        ensures
            r.wf(),
            r.width == width,
            r.pixels@ == pixels@,
            r.palette == palette,
    {
        let mut v: Vec<u8> = Vec::new();
        crate::bytes::push_all(&mut v, pixels);
        assert(v@ =~= pixels@);
        Image { width, pixels: v, palette }
    }

    pub fn with_palette(self, palette: Palette) -> (r: Self)
        ensures
            r.width == self.width,
            r.pixels@ == self.pixels@,
            r.palette == Some(palette),
    {
        Image { width: self.width, pixels: self.pixels, palette: Some(palette) }
    }

    pub fn width(&self) -> (r: usize)
        ensures
            r == self.width,
    {
        self.width
    }

    pub fn height(&self) -> (r: usize)
        requires
            self.wf(),
        ensures
            r == self.spec_height(),
    {
        self.pixels.len() / self.width
    }

    pub fn pixels(&self) -> (r: &[u8])
        ensures
            r@ == self.pixels@,
    {
        self.pixels.as_slice()
    }

    /// A copy of the palette.
    pub fn palette(&self) -> (r: Option<Palette>)
        ensures
            r is Some == self.palette is Some,
            r matches Some(p) ==> p.colors@ == self.palette.unwrap().colors@,
    {
        match &self.palette {
            Some(p) => Some(p.duplicate()),
            None => None,
        }
    }

    /// The rectangle from (`left`, `top`) to (`right`, `bottom`), both corners
    /// included, with the same palette.
    pub fn crop(&self, top: usize, left: usize, bottom: usize, right: usize) -> (r: Image)
        requires
            self.wf(),
            left < right < self.width,
            top < bottom < self.spec_height(),
        ensures
            r.wf(),
            r.width == right - left + 1,
            r.pixels@.len() == (right - left + 1) * (bottom - top + 1),
            forall|j: int|
                0 <= j < r.pixels@.len() ==> #[trigger] r.pixels@[j] == self.pixels@[(top + j
                    / r.width as int) * self.width + left + j % r.width as int],
            r.palette is Some == self.palette is Some,
            r.palette matches Some(p) ==> p.colors@ == self.palette.unwrap().colors@,
    {
        let nw = right - left + 1;
        let plen = self.pixels.len();
        let mut out: Vec<u8> = Vec::new();
        let mut y: usize = top;
        while y <= bottom
            invariant
                self.wf(),
                left < right < self.width,
                top < bottom < self.spec_height(),
                nw == right - left + 1,
                plen == self.pixels@.len(),
                top <= y <= bottom + 1,
                out@.len() == (y - top) * nw,
                forall|j: int|
                    0 <= j < out@.len() ==> #[trigger] out@[j] == self.pixels@[(top + j / nw as int)
                        * self.width + left + j % nw as int],
            decreases bottom + 1 - y,
        {
            let mut x: usize = left;
            while x <= right
                invariant
                    self.wf(),
                    left < right < self.width,
                    top <= y <= bottom,
                    bottom < self.spec_height(),
                    nw == right - left + 1,
                    plen == self.pixels@.len(),
                    left <= x <= right + 1,
                    out@.len() == (y - top) * nw + (x - left),
                    forall|j: int|
                        0 <= j < out@.len() ==> #[trigger] out@[j] == self.pixels@[(top + j
                            / nw as int) * self.width + left + j % nw as int],
                decreases right + 1 - x,
            {
                proof {
                    let h = self.spec_height();
                    assert(y * self.width + x < self.pixels@.len()) by (nonlinear_arith)
                        requires
                            y < h,
                            x < self.width,
                            h == self.pixels@.len() as int / self.width as int,
                            self.pixels@.len() as int % self.width as int == 0,
                            self.width > 0,
                    ;
                    assert(y * self.width <= y * self.width + x);
                    let j = out@.len() as int;
                    assert(j / nw as int == y - top && j % nw as int == x - left) by (
                    nonlinear_arith)
                        requires
                            j == (y - top) * nw + (x - left),
                            0 <= x - left < nw,
                            y >= top,
                    ;
                }
                out.push(self.pixels[y * self.width + x]);
                x = x + 1;
            }
            proof {
                assert((y - top) * nw + nw == (y + 1 - top) * nw) by (nonlinear_arith);
            }
            y = y + 1;
        }
        proof {
            assert(out@.len() as int % nw as int == 0) by (nonlinear_arith)
                requires
                    out@.len() == (bottom + 1 - top) * nw,
                    nw > 0,
            ;
            assert((bottom + 1 - top) * nw == (right - left + 1) * (bottom - top + 1)) by (
            nonlinear_arith)
                requires
                    nw == right - left + 1,
            ;
        }
        Image { width: nw, pixels: out, palette: self.palette() }
    }

    /// Width in tiles.
    pub fn width_in_tiles(&self) -> (r: usize)
        requires
            self.width % 8 == 0,
        ensures
            r == self.width / 8,
    {
        self.width / TILE_LENGTH
    }

    /// Height in tiles.
    pub fn height_in_tiles(&self) -> (r: usize)
        requires
            self.wf(),
            self.spec_height() % 8 == 0,
        ensures
            r == self.spec_height() / 8,
    {
        self.height() / TILE_LENGTH
    }

    /// Two pixels per byte, the low nibble first.
    pub fn raw_data_4bpp_to_pixels(raw_data: &[u8]) -> (r: Vec<u8>)
        requires
            raw_data@.len() * 2 <= usize::MAX,
        ensures
            r@ == unpack_4bpp(raw_data@),
    {
        let mut pixels: Vec<u8> = Vec::new();
        let mut i: usize = 0;
        while i < raw_data.len()
            invariant
                i <= raw_data@.len(),
                pixels@ == unpack_4bpp(raw_data@.subrange(0, i as int)),
            decreases raw_data@.len() - i,
        {
            pixels.push(raw_data[i] % 16);
            pixels.push(raw_data[i] / 16);
            i = i + 1;
            assert(pixels@ =~= unpack_4bpp(raw_data@.subrange(0, i as int)));
        }
        assert(raw_data@.subrange(0, i as int) =~= raw_data@);
        pixels
    }

    /// One pixel per byte.
    pub fn raw_data_8bpp_to_pixels(raw_data: &[u8]) -> (r: Vec<u8>)
        ensures
            r@ == raw_data@,
    {
        let mut v: Vec<u8> = Vec::new();
        crate::bytes::push_all(&mut v, raw_data);
        assert(v@ =~= raw_data@);
        v
    }
}

/// Pixels of 4-bit data: for each byte its low nibble, then its high nibble.
pub open spec fn unpack_4bpp(raw: Seq<u8>) -> Seq<u8> {
    Seq::new(
        raw.len() * 2,
        |i: int|
            if i % 2 == 0 {
                raw[i / 2] % 16
            } else {
                raw[i / 2] / 16
            },
    )
}

} // verus!
