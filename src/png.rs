use vstd::prelude::*;

use crate::error::NtrError;
use crate::image::Image;
use crate::palette::{Color, Palette};

verus! {

/// A picture as the indexed-color raster format carries it.
pub struct Png {
    pub image: Image,
}

/// Pixel depth of an indexed raster.
#[derive(Clone, Copy, Debug, PartialEq, Eq, Structural)]
pub enum PngBitDepth {
    Four,
    Eight,
}

/// Colors of raw palette bytes, three per color in red, green, blue order.
pub open spec fn colors_of_rgb(b: Seq<u8>) -> Seq<Color> {
    Seq::new(
        b.len() / 3,
        |i: int| Color { red: b[3 * i], green: b[3 * i + 1], blue: b[3 * i + 2] },
    )
}

/// Raw palette bytes of colors.
pub open spec fn rgb_of_colors(cs: Seq<Color>) -> Seq<u8> {
    Seq::new(
        cs.len() * 3,
        |i: int|
            if i % 3 == 0 {
                cs[i / 3].red
            } else if i % 3 == 1 {
                cs[i / 3].green
            } else {
                cs[i / 3].blue
            },
    )
}

/// Pixels of 4-bit raster rows: for each byte its high nibble, then its low nibble.
pub open spec fn unpack_4bpp_high_first(raw: Seq<u8>) -> Seq<u8> {
    Seq::new(
        raw.len() * 2,
        |i: int|
            if i % 2 == 0 {
                raw[i / 2] / 16
            } else {
                raw[i / 2] % 16
            },
    )
}

/// Pixels packed two per byte, the first in the high nibble.
pub open spec fn pack_4bpp_high_first(p: Seq<u8>) -> Seq<u8> {
    Seq::new(p.len() / 2, |i: int| ((p[2 * i] % 16) * 16) as u8 | p[2 * i + 1])
}

/// The largest pixel value (0 for none).
pub open spec fn max_pixel(p: Seq<u8>) -> int
    decreases p.len(),
{
    if p.len() == 0 {
        0
    } else if p.last() as int > max_pixel(p.drop_last()) {
        p.last() as int
    } else {
        max_pixel(p.drop_last())
    }
}

/// The depth a palette of `n` colors is written with, if any: 4 bits for 9 to
/// 16 colors, 8 bits for 17 to 256.
pub open spec fn depth_for(n: int) -> Option<PngBitDepth> {
    if 9 <= n <= 16 {
        Some(PngBitDepth::Four)
    } else if 17 <= n <= 256 {
        Some(PngBitDepth::Eight)
    } else {
        None
    }
}

impl Png {
    /// Wraps a picture, keeping at most the first 256 colors of its palette.
    pub fn from_image(image: Image) -> (r: Self)
        ensures
            r.image.width == image.width,
            r.image.pixels@ == image.pixels@,
            r.image.palette is Some == image.palette is Some,
            r.image.palette matches Some(p) ==> p.colors@ == (if image.palette.unwrap().colors@.len()
                > 256 {
                image.palette.unwrap().colors@.take(256)
            } else {
                image.palette.unwrap().colors@
            }),
    {
        let truncated = match &image.palette {
            Some(p) => {
                if p.colors.len() > 256 {
                    let mut colors: Vec<Color> = Vec::new();
                    let mut i: usize = 0;
                    while i < 256
                        invariant
                            p.colors@.len() > 256,
                            i <= 256,
                            colors@ == p.colors@.take(i as int),
                        decreases 256 - i,
                    {
                        colors.push(p.colors[i]);
                        i = i + 1;
                        assert(colors@ =~= p.colors@.take(i as int));
                    }
                    Some(Palette { colors })
                } else {
                    None
                }
            },
            None => None,
        };
        match truncated {
            Some(p) => Png { image: image.with_palette(p) },
            None => Png { image },
        }
    }

    /// The picture.
    pub fn to_image(&self) -> (r: Image)
        ensures
            r.width == self.image.width,
            r.pixels@ == self.image.pixels@,
            r.palette is Some == self.image.palette is Some,
            r.palette matches Some(p) ==> p.colors@ == self.image.palette.unwrap().colors@,
    {
        let mut pixels: Vec<u8> = Vec::new();
        crate::bytes::push_all(&mut pixels, self.image.pixels.as_slice());
        assert(pixels@ =~= self.image.pixels@);
        Image { width: self.image.width, pixels, palette: self.image.palette() }
    }

    /// Colors from raw palette bytes. Fails where the length is not a multiple of 3.
    pub fn read_palette(raw_palette: &[u8]) -> (r: Result<Palette, NtrError>)
        ensures
            r is Ok <==> raw_palette@.len() % 3 == 0,
            r matches Ok(p) ==> p.colors@ == colors_of_rgb(raw_palette@),
    {
        if raw_palette.len() % 3 != 0 {
            return Err(NtrError::Malformed);
        }
        let n = raw_palette.len() / 3;
        let mut colors: Vec<Color> = Vec::new();
        let mut i: usize = 0;
        while i < n
            invariant
                n == raw_palette@.len() / 3,
                raw_palette@.len() % 3 == 0,
                raw_palette@.len() <= usize::MAX,
                i <= n,
                colors@ == colors_of_rgb(raw_palette@).take(i as int),
            decreases n - i,
        {
            colors.push(
                Color {
                    red: raw_palette[3 * i],
                    green: raw_palette[3 * i + 1],
                    blue: raw_palette[3 * i + 2],
                },
            );
            i = i + 1;
            assert(colors@ =~= colors_of_rgb(raw_palette@).take(i as int));
        }
        assert(colors_of_rgb(raw_palette@).take(n as int) =~= colors_of_rgb(raw_palette@));
        Ok(Palette { colors })
    }

    /// Raw palette bytes of a palette.
    pub fn write_palette(palette: &Palette) -> (r: Vec<u8>)
        requires
            palette.colors@.len() * 3 <= usize::MAX,
        ensures
            r@ == rgb_of_colors(palette.colors@),
    {
        let mut out: Vec<u8> = Vec::new();
        let mut i: usize = 0;
        while i < palette.colors.len()
            invariant
                i <= palette.colors@.len(),
                palette.colors@.len() * 3 <= usize::MAX,
                out@ == rgb_of_colors(palette.colors@).take(3 * i as int),
            decreases palette.colors@.len() - i,
        {
            let c = palette.colors[i];
            out.push(c.red);
            out.push(c.green);
            out.push(c.blue);
            i = i + 1;
            assert(out@ =~= rgb_of_colors(palette.colors@).take(3 * i as int));
        }
        assert(rgb_of_colors(palette.colors@).take(3 * i as int) =~= rgb_of_colors(
            palette.colors@,
        ));
        out
    }

    /// A picture from decoded raster rows: 4-bit rows hold two pixels per byte,
    /// the high nibble first; 8-bit rows one per byte. Fails where the pixels do
    /// not fill whole rows.
    pub fn read_image(width: usize, depth: PngBitDepth, bytes: &[u8], palette: Palette) -> (r:
        Result<Image, NtrError>)
        requires
            bytes@.len() * 2 <= usize::MAX,
        ensures
            r is Ok <==> width > 0 && (if depth == PngBitDepth::Four {
                unpack_4bpp_high_first(bytes@)
            } else {
                bytes@
            }).len() as int % width as int == 0,
            r matches Ok(img) ==> img.width == width && img.pixels@ == (if depth
                == PngBitDepth::Four {
                unpack_4bpp_high_first(bytes@)
            } else {
                bytes@
            }) && (img.palette matches Some(p) && p.colors@ == palette.colors@),
    {
        let mut pixels: Vec<u8> = Vec::new();
        match depth {
            PngBitDepth::Four => {
                let mut i: usize = 0;
                while i < bytes.len()
                    invariant
                        i <= bytes@.len(),
                        pixels@ == unpack_4bpp_high_first(bytes@.take(i as int)),
                    decreases bytes@.len() - i,
                {
                    pixels.push(bytes[i] / 16);
                    pixels.push(bytes[i] % 16);
                    i = i + 1;
                    assert(pixels@ =~= unpack_4bpp_high_first(bytes@.take(i as int)));
                }
                assert(bytes@.take(i as int) =~= bytes@);
            },
            PngBitDepth::Eight => {
                crate::bytes::push_all(&mut pixels, bytes);
                assert(pixels@ =~= bytes@);
            },
        }
        if width == 0 || pixels.len() % width != 0 {
            return Err(NtrError::Malformed);
        }
        Ok(Image { width, pixels, palette: Some(palette) })
    }

    /// What the raster writer needs: the palette (the picture's own, else 16
    /// grays where every pixel is under 16 and 256 grays otherwise), the depth
    /// for its size, and the pixel rows (two per byte, high nibble first, at 4
    /// bits). Fails on a palette of 8 colors or fewer, or of more than 256, or
    /// on an odd pixel count at 4 bits.
    pub fn raster_parts(&self) -> (r: Result<(Palette, PngBitDepth, Vec<u8>), NtrError>)
        ensures
            ({
                let p = self.image.pixels@;
                let n = match self.image.palette {
                    Some(pal) => pal.colors@.len() as int,
                    None => if max_pixel(p) < 16 {
                        16int
                    } else {
                        256int
                    },
                };
                &&& r is Ok <==> depth_for(n) is Some && (depth_for(n) == Some(PngBitDepth::Four)
                    ==> p.len() % 2 == 0)
                &&& r matches Ok((pal, d, rows)) ==> {
                    &&& Some(d) == depth_for(n)
                    &&& pal.colors@.len() == n
                    &&& (self.image.palette matches Some(own) ==> pal.colors@ == own.colors@)
                    &&& rows@ == if d == PngBitDepth::Four {
                        pack_4bpp_high_first(p)
                    } else {
                        p
                    }
                }
            }),
    {
        let palette = match self.image.palette() {
            Some(p) => p,
            None => {
                let m = max_pixel_exec(self.image.pixels.as_slice());
                if m < 16 {
                    Palette::gen_16_colors()
                } else {
                    Palette::gen_256_colors()
                }
            },
        };
        let n = palette.colors.len();
        let depth = if 9 <= n && n <= 16 {
            PngBitDepth::Four
        } else if 17 <= n && n <= 256 {
            PngBitDepth::Eight
        } else {
            return Err(NtrError::Unsupported);
        };
        let p = self.image.pixels.as_slice();
        let rows = match depth {
            PngBitDepth::Four => {
                if p.len() % 2 != 0 {
                    return Err(NtrError::Precondition);
                }
                let half = p.len() / 2;
                let mut out: Vec<u8> = Vec::new();
                let mut i: usize = 0;
                while i < half
                    invariant
                        half == p@.len() / 2,
                        p@.len() % 2 == 0,
                        p@.len() <= usize::MAX,
                        i <= half,
                        out@ == pack_4bpp_high_first(p@).take(i as int),
                    decreases half - i,
                {
                    out.push(((p[2 * i] % 16) * 16) | p[2 * i + 1]);
                    i = i + 1;
                    assert(out@ =~= pack_4bpp_high_first(p@).take(i as int));
                }
                assert(pack_4bpp_high_first(p@).take(half as int) =~= pack_4bpp_high_first(p@));
                out
            },
            PngBitDepth::Eight => {
                let mut out: Vec<u8> = Vec::new();
                crate::bytes::push_all(&mut out, p);
                assert(out@ =~= p@);
                out
            },
        };
        Ok((palette, depth, rows))
    }
}

/// The largest pixel value (0 for none).
fn max_pixel_exec(p: &[u8]) -> (r: u8)
    ensures
        r == max_pixel(p@),
{
    let mut m: u8 = 0;
    let mut i: usize = 0;
    while i < p.len()
        invariant
            i <= p@.len(),
            m == max_pixel(p@.take(i as int)),
        decreases p@.len() - i,
    {
        assert(p@.take(i + 1).drop_last() =~= p@.take(i as int));
        if p[i] > m {
            m = p[i];
        }
        i = i + 1;
    }
    assert(p@.take(i as int) =~= p@);
    m
}

} // verus!
