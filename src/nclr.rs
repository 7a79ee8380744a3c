use vstd::prelude::*;

use crate::bytes::{
    lemma_u16_at_concat, lemma_u32_at_concat, push_u16, push_u32, read_u16, read_u32, u16_at,
    u16_bytes, u32_at, u32_bytes,
};
use crate::enums::{NtrFileVersion, NtrTextureFormat};
use crate::error::NtrError;
use crate::ntr::{
    NtrFormat,
    encodable, file_bytes, lemma_container_round_trip, parse_file, tag_is, BlockView, NtrFile,
    NtrFileBlock, NtrFileView, U32_MAX,
};
use crate::palette::{color_of_word, word_of_color, Color, Palette};

verus! {

/// The configuration of a palette file.
pub struct NclrMetadata {
    pub version: NtrFileVersion,
    pub texture_format: NtrTextureFormat,
    /// The value to write to offset 0x0002 of the PLTT block. Defaults to `0`.
    pub pltt_0002: u16,
    /// Whether the extended palette is used. Defaults to false.
    pub extended: bool,
    /// Whether the size of data is stored as `(0x200 - size)` instead.
    /// Defaults to false.
    pub invert_size: bool,
    /// Whether the unused high bit for each color is set. Defaults to false.
    pub high_color_bit: bool,
    /// The palette indexes stored in the PCMP block. If empty, no PCMP block
    /// is included. Defaults to an empty vector.
    pub palette_indexes: Vec<u16>,
}

impl Default for NclrMetadata {
    fn default() -> (r: Self)
        ensures
            r.version == NtrFileVersion::Version0100,
            r.texture_format == NtrTextureFormat::Palette16,
            r.pltt_0002 == 0,
            !r.extended,
            !r.invert_size,
            !r.high_color_bit,
            r.palette_indexes@.len() == 0,
    {
        NclrMetadata {
            version: NtrFileVersion::Version0100,
            texture_format: NtrTextureFormat::Palette16,
            pltt_0002: 0,
            extended: false,
            invert_size: false,
            high_color_bit: false,
            palette_indexes: Vec::new(),
        }
    }
}

/// A copy of a list of indexes.
fn copy_indexes(v: &Vec<u16>) -> (r: Vec<u16>)
    ensures
        r@ == v@,
{
    let mut out: Vec<u16> = Vec::new();
    let mut i: usize = 0;
    while i < v.len()
        invariant
            i <= v@.len(),
            out@ == v@.take(i as int),
        decreases v@.len() - i,
    {
        out.push(v[i]);
        i = i + 1;
        assert(out@ =~= v@.take(i as int));
    }
    assert(v@.take(i as int) =~= v@);
    out
}

impl NclrMetadata {
    /// Whether two configurations hold the same values.
    pub open spec fn same(&self, o: &NclrMetadata) -> bool {
        &&& self.version == o.version
        &&& self.texture_format == o.texture_format
        &&& self.pltt_0002 == o.pltt_0002
        &&& self.extended == o.extended
        &&& self.invert_size == o.invert_size
        &&& self.high_color_bit == o.high_color_bit
        &&& self.palette_indexes@ == o.palette_indexes@
    }

    /// A configuration with the same values.
    pub fn duplicate(&self) -> (r: Self)
        ensures
            r.same(self),
    {
        NclrMetadata {
            version: self.version,
            texture_format: self.texture_format,
            pltt_0002: self.pltt_0002,
            extended: self.extended,
            invert_size: self.invert_size,
            high_color_bit: self.high_color_bit,
            palette_indexes: copy_indexes(&self.palette_indexes),
        }
    }

    pub fn with_version(self, version: NtrFileVersion) -> (r: Self)
        ensures
            r.version == version,
            r.same(&NclrMetadata { version, ..self }),
    {
        NclrMetadata { version, ..self }
    }

    pub fn with_texture_format(self, texture_format: NtrTextureFormat) -> (r: Self)
        ensures
            r.texture_format == texture_format,
            r.same(&NclrMetadata { texture_format, ..self }),
    {
        NclrMetadata { texture_format, ..self }
    }

    pub fn pltt_0002(self, value: u16) -> (r: Self)
        ensures
            r.pltt_0002 == value,
            r.same(&NclrMetadata { pltt_0002: value, ..self }),
    {
        NclrMetadata { pltt_0002: value, ..self }
    }

    pub fn extended(self, extended: bool) -> (r: Self)
        ensures
            r.extended == extended,
            r.same(&NclrMetadata { extended, ..self }),
    {
        NclrMetadata { extended, ..self }
    }

    pub fn invert_size(self, invert_size: bool) -> (r: Self)
        ensures
            r.invert_size == invert_size,
            r.same(&NclrMetadata { invert_size, ..self }),
    {
        NclrMetadata { invert_size, ..self }
    }

    pub fn high_color_bit(self, high_color_bit: bool) -> (r: Self)
        ensures
            r.high_color_bit == high_color_bit,
            r.same(&NclrMetadata { high_color_bit, ..self }),
    {
        NclrMetadata { high_color_bit, ..self }
    }

    pub fn with_palette_indexes(self, palette_indexes: Vec<u16>) -> (r: Self)
        ensures
            r.palette_indexes@ == palette_indexes@,
            r.version == self.version,
            r.texture_format == self.texture_format,
            r.pltt_0002 == self.pltt_0002,
            r.extended == self.extended,
            r.invert_size == self.invert_size,
            r.high_color_bit == self.high_color_bit,
    {
        NclrMetadata { palette_indexes, ..self }
    }
}

/// A palette with the configuration of its file.
pub struct Nclr {
    pub metadata: NclrMetadata,
    pub palette: Palette,
}

/// Number of payload bytes that the colors of a palette block take.
pub open spec fn pltt_data_size(c: Seq<u8>) -> int {
    c.len() - 16
}

/// Whether a palette block payload is well formed: texture format (16- or
/// 256-color), a free word, the extended flag (0 or 1), the declared size of
/// the colors (either the true size or 0x200 minus it; the true size is tried
/// first), offset 0x10, then the colors.
pub open spec fn pltt_ok(c: Seq<u8>) -> bool {
    let s = pltt_data_size(c);
    &&& c.len() >= 16
    &&& (u16_at(c, 0) == 3 || u16_at(c, 0) == 4)
    &&& u32_at(c, 4) <= 1
    &&& s <= U32_MAX
    &&& (u32_at(c, 8) == s || (s <= 0x200 && u32_at(c, 8) == 0x200 - s))
    &&& u32_at(c, 12) == 0x10
}

/// Whether the declared size is stored inverted: it is not the true size.
pub open spec fn pltt_inverted(c: Seq<u8>) -> bool {
    u32_at(c, 8) != pltt_data_size(c)
}

/// The stored color words of a palette block payload.
pub open spec fn pltt_words(c: Seq<u8>) -> Seq<u16> {
    Seq::new((pltt_data_size(c) / 2) as nat, |i: int| u16_at(c, 16 + 2 * i))
}

/// The colors of a palette block payload.
pub open spec fn pltt_colors(c: Seq<u8>) -> Seq<Color> {
    pltt_words(c).map_values(|w: u16| color_of_word(w))
}

/// Whether any stored color word has its high bit set.
pub open spec fn pltt_high_bit(c: Seq<u8>) -> bool {
    exists|i: int| 0 <= i < pltt_words(c).len() && #[trigger] pltt_words(c)[i] >= 0x8000
}

/// Whether a palette-index block payload is well formed: a count, 0xBEEF, 8,
/// then that many 16-bit indexes.
pub open spec fn pcmp_ok(p: Seq<u8>) -> bool {
    p.len() >= 8 && u16_at(p, 2) == 0xBEEF && u32_at(p, 4) == 8 && 8 + 2 * u16_at(p, 0)
        <= p.len()
}

/// The indexes of a palette-index block payload.
pub open spec fn pcmp_indexes(p: Seq<u8>) -> Seq<u16> {
    Seq::new(u16_at(p, 0) as nat, |i: int| u16_at(p, 8 + 2 * i))
}

/// The stored words of colors: each packed, with bit 15 set where asked.
pub open spec fn color_words(cs: Seq<Color>, high: bool) -> Seq<u16> {
    cs.map_values(|c: Color| (word_of_color(c) + if high { 0x8000int } else { 0int }) as u16)
}

pub open spec fn words_bytes(ws: Seq<u16>) -> Seq<u8>
    decreases ws.len(),
{
    if ws.len() == 0 {
        Seq::empty()
    } else {
        words_bytes(ws.drop_last()) + u16_bytes(ws.last())
    }
}

/// Payload of a palette block.
pub open spec fn pltt_bytes(m: NclrMetadata, cs: Seq<Color>) -> Seq<u8> {
    let size = 2 * cs.len() as int;
    u16_bytes(m.texture_format.code()) + u16_bytes(m.pltt_0002) + u32_bytes(
        if m.extended {
            1u32
        } else {
            0u32
        },
    ) + u32_bytes(
        (if m.invert_size {
            0x200 - size
        } else {
            size
        }) as u32,
    ) + u32_bytes(0x10) + words_bytes(color_words(cs, m.high_color_bit))
}

/// Payload of a palette-index block.
pub open spec fn pcmp_bytes(ix: Seq<u16>) -> Seq<u8> {
    u16_bytes(ix.len() as u16) + u16_bytes(0xBEEF) + u32_bytes(8) + words_bytes(ix)
}

fn push_words(out: &mut Vec<u8>, ws: &Vec<u16>)
    ensures
        final(out)@ == old(out)@ + words_bytes(ws@),
{
    let mut i: usize = 0;
    while i < ws.len()
        invariant
            i <= ws@.len(),
            out@ == old(out)@ + words_bytes(ws@.take(i as int)),
        decreases ws@.len() - i,
    {
        assert(ws@.take(i + 1).drop_last() =~= ws@.take(i as int));
        push_u16(out, ws[i]);
        i = i + 1;
        assert(out@ =~= old(out)@ + words_bytes(ws@.take(i as int)));
    }
    assert(ws@.take(i as int) =~= ws@);
}

impl Nclr {
    pub fn from_palette(palette: Palette, metadata: NclrMetadata) -> (r: Self)
        ensures
            r.palette.colors@ == palette.colors@,
            r.metadata.same(&metadata),
    {
        Nclr { metadata, palette }
    }

    pub fn to_palette(&self) -> (r: Palette)
        ensures
            r.colors@ == self.palette.colors@,
    {
        self.palette.duplicate()
    }

    pub fn metadata(&self) -> (r: NclrMetadata)
        ensures
            r.same(&self.metadata),
    {
        self.metadata.duplicate()
    }

    /// The palette block (tag `TTLP`). Fails where the declared size does not
    /// fit: more than 0x200 bytes of colors with the size inverted, or more
    /// than 32 bits.
    pub fn to_pltt_block(&self, metadata: &NclrMetadata) -> (r: Result<NtrFileBlock, NtrError>)
        ensures
            r is Ok <==> 2 * self.palette.colors@.len() <= U32_MAX && (metadata.invert_size ==> 2
                * self.palette.colors@.len() <= 0x200),
            r matches Ok(b) ==> b.id@ == seq![0x54u8, 0x54, 0x4C, 0x50] && b.contents@
                == pltt_bytes(*metadata, self.palette.colors@),
            r matches Err(e) ==> e == NtrError::Precondition,
    {
        let colors = self.palette.colors();
        let mut words: Vec<u16> = Vec::new();
        let mut i: usize = 0;
        while i < colors.len()
            invariant
                colors@ == self.palette.colors@,
                i <= colors@.len(),
                words@ == color_words(colors@, metadata.high_color_bit).take(i as int),
            decreases colors@.len() - i,
        {
            let w = colors[i].into_u16();
            words.push(w + if metadata.high_color_bit { 0x8000 } else { 0 });
            i = i + 1;
            assert(words@ =~= color_words(colors@, metadata.high_color_bit).take(i as int));
        }
        assert(color_words(colors@, metadata.high_color_bit).take(i as int) =~= color_words(
            colors@,
            metadata.high_color_bit,
        ));
        if colors.len() as u64 > U32_MAX / 2 {
            return Err(NtrError::Precondition);
        }
        let size = (colors.len() * 2) as u32;
        if metadata.invert_size && size > 0x200 {
            return Err(NtrError::Precondition);
        }
        let mut c: Vec<u8> = Vec::new();
        push_u16(&mut c, metadata.texture_format.into_u16());
        push_u16(&mut c, metadata.pltt_0002);
        push_u32(&mut c, if metadata.extended { 1 } else { 0 });
        push_u32(&mut c, if metadata.invert_size { 0x200 - size } else { size });
        push_u32(&mut c, 0x10);
        push_words(&mut c, &words);
        Ok(NtrFileBlock { id: [0x54, 0x54, 0x4C, 0x50], contents: c })
    }

    /// The palette-index block (tag `PMCP`). Fails with more than 0xFFFF indexes.
    pub fn to_pcmp_block(&self, palette_indexes: &Vec<u16>) -> (r: Result<NtrFileBlock, NtrError>)
        ensures
            r is Ok <==> palette_indexes@.len() <= 0xFFFF,
            r matches Ok(b) ==> b.id@ == seq![0x50u8, 0x4D, 0x43, 0x50] && b.contents@
                == pcmp_bytes(palette_indexes@),
    {
        if palette_indexes.len() > 0xFFFF {
            return Err(NtrError::Precondition);
        }
        let mut c: Vec<u8> = Vec::new();
        push_u16(&mut c, palette_indexes.len() as u16);
        push_u16(&mut c, 0xBEEF);
        push_u32(&mut c, 8);
        push_words(&mut c, palette_indexes);
        Ok(NtrFileBlock { id: [0x50, 0x4D, 0x43, 0x50], contents: c })
    }
}

/// Whether a container holds a palette: tag `RLCN`, a palette block (tag
/// `TTLP`) and, where there is a second block, a palette-index block (tag `PMCP`).
pub open spec fn nclr_file_ok(f: NtrFileView) -> bool {
    &&& f.id == seq![0x52u8, 0x4C, 0x43, 0x4E]
    &&& f.blocks.len() >= 1
    &&& f.blocks[0].id == seq![0x54u8, 0x54, 0x4C, 0x50]
    &&& pltt_ok(f.blocks[0].contents)
    &&& f.blocks.len() > 1 ==> f.blocks[1].id == seq![0x50u8, 0x4D, 0x43, 0x50] && pcmp_ok(
        f.blocks[1].contents,
    )
}

/// Whether a palette holds what a container holds.
pub open spec fn nclr_read_from(f: NtrFileView, n: Nclr) -> bool {
    let c = f.blocks[0].contents;
    &&& n.metadata.version == f.version
    &&& n.metadata.texture_format.code() == u16_at(c, 0)
    &&& n.metadata.pltt_0002 == u16_at(c, 2)
    &&& n.metadata.extended == (u32_at(c, 4) == 1)
    &&& n.metadata.invert_size == pltt_inverted(c)
    &&& n.metadata.high_color_bit == pltt_high_bit(c)
    &&& n.palette.colors@ == pltt_colors(c)
    &&& n.metadata.palette_indexes@ == if f.blocks.len() > 1 {
        pcmp_indexes(f.blocks[1].contents)
    } else {
        Seq::<u16>::empty()
    }
}

/// Whether a palette fits its blocks' fields.
pub open spec fn nclr_writable(n: Nclr) -> bool {
    let k = n.palette.colors@.len();
    &&& 2 * k <= U32_MAX
    &&& n.metadata.invert_size ==> 2 * k <= 0x200
    &&& n.metadata.palette_indexes@.len() <= 0xFFFF
}

/// The container a palette is written as: the palette block, then the
/// palette-index block where there are indexes.
pub open spec fn nclr_file_view(n: Nclr) -> NtrFileView {
    let ix = n.metadata.palette_indexes@;
    NtrFileView {
        id: seq![0x52u8, 0x4C, 0x43, 0x4E],
        version: n.metadata.version,
        blocks: seq![
            BlockView {
                id: seq![0x54u8, 0x54, 0x4C, 0x50],
                contents: pltt_bytes(n.metadata, n.palette.colors@),
            },
        ] + if ix.len() > 0 {
            seq![BlockView { id: seq![0x50u8, 0x4D, 0x43, 0x50], contents: pcmp_bytes(ix) }]
        } else {
            Seq::<BlockView>::empty()
        },
    }
}

/// Writing a legal palette to bytes and reading the bytes back gives the same
/// palette and configuration.
#[verifier::rlimit(40)]
pub proof fn lemma_nclr_file_round_trip(n: Nclr)
    requires
        nclr_legal(n.metadata, n.palette.colors@),
        encodable(nclr_file_view(n)),
    ensures
        parse_file(file_bytes(nclr_file_view(n))) == Some(nclr_file_view(n)),
        nclr_file_ok(nclr_file_view(n)),
        forall|m: Nclr|
            nclr_read_from(nclr_file_view(n), m) ==> m.palette.colors@ == n.palette.colors@
                && m.metadata.same(&n.metadata),
{
    let v = nclr_file_view(n);
    let ix = n.metadata.palette_indexes@;
    assert(v.blocks[0].id.len() == 4);
    assert(v.blocks.len() > 1 ==> v.blocks[1].id.len() == 4);
    lemma_container_round_trip(v);
    lemma_nclr_round_trip(n.metadata, n.palette.colors@);
    assert(v.blocks[0].contents == pltt_bytes(n.metadata, n.palette.colors@));
    assert(v.blocks.len() > 1 ==> v.blocks[1].contents == pcmp_bytes(ix));
    assert(v.blocks.len() > 1 <==> ix.len() > 0);
    assert forall|m: Nclr| nclr_read_from(v, m) implies m.palette.colors@ == n.palette.colors@
        && m.metadata.same(&n.metadata) by {
        lemma_texture_code(m.metadata.texture_format, n.metadata.texture_format);
        if ix.len() == 0 {
            assert(m.metadata.palette_indexes@ =~= ix);
        }
    }
}

proof fn lemma_texture_code(a: NtrTextureFormat, b: NtrTextureFormat)
    requires
        a.code() == b.code(),
    ensures
        a == b,
{
}

impl Nclr {
    /// The container (tag `RLCN`): the palette block, then the palette-index
    /// block where there are indexes.
    pub fn write_to_ntr_file(&self) -> (r: Result<NtrFile, NtrError>)
        ensures
            r is Ok <==> nclr_writable(*self),
            r matches Ok(f) ==> f@ == nclr_file_view(*self),
    {
        let pltt = match self.to_pltt_block(&self.metadata) {
            Ok(b) => b,
            Err(e) => {
                return Err(e);
            },
        };
        let mut blocks: Vec<NtrFileBlock> = Vec::new();
        blocks.push(pltt);
        if self.metadata.palette_indexes.len() > 0 {
            match self.to_pcmp_block(&self.metadata.palette_indexes) {
                Ok(b) => blocks.push(b),
                Err(e) => {
                    return Err(e);
                },
            }
        } else if self.metadata.palette_indexes.len() > 0xFFFF {
            return Err(NtrError::Precondition);
        }
        let f = NtrFile { id: [0x52, 0x4C, 0x43, 0x4E], version: self.metadata.version, blocks };
        assert(f@.blocks[0] == f.blocks@[0]@);
        assert(f.blocks@.len() > 1 ==> f@.blocks[1] == f.blocks@[1]@);
        assert(f@.blocks =~= nclr_file_view(*self).blocks);
        assert(f@.id =~= nclr_file_view(*self).id);
        Ok(f)
    }

    /// Reads a palette from a container: tag `RLCN`, a palette block and, where
    /// there is a second block, a palette-index block.
    pub fn read_from_ntr_file(file: &NtrFile) -> (r: Result<Nclr, NtrError>)
        ensures
            r is Ok <==> nclr_file_ok(file@),
            r matches Ok(n) ==> nclr_read_from(file@, n),
    {
        if !tag_is(&file.id, 0x52, 0x4C, 0x43, 0x4E) || file.blocks.len() < 1 {
            return Err(NtrError::Malformed);
        }
        let block = &file.blocks[0];
        assert(file@.blocks[0] == block@);
        if !tag_is(&block.id, 0x54, 0x54, 0x4C, 0x50) {
            return Err(NtrError::Malformed);
        }
        let c = block.contents.as_slice();
        let ghost cs = c@;
        if c.len() < 16 {
            return Err(NtrError::Malformed);
        }
        let tf = read_u16(c, 0).unwrap();
        let texture_format = if tf == 3 {
            NtrTextureFormat::Palette16
        } else if tf == 4 {
            NtrTextureFormat::Palette256
        } else {
            return Err(NtrError::Unsupported);
        };
        let pltt_0002 = read_u16(c, 2).unwrap();
        let ext = read_u32(c, 4).unwrap();
        if ext > 1 {
            return Err(NtrError::Malformed);
        }
        let size = c.len() - 16;
        if size as u64 > U32_MAX {
            return Err(NtrError::Malformed);
        }
        let declared = read_u32(c, 8).unwrap();
        let invert_size = if declared as usize == size {
            false
        } else if size <= 0x200 && declared as usize == 0x200 - size {
            true
        } else {
            return Err(NtrError::Malformed);
        };
        if read_u32(c, 12).unwrap() != 0x10 {
            return Err(NtrError::Malformed);
        }
        let n = size / 2;
        let mut colors: Vec<Color> = Vec::new();
        let mut high = false;
        let mut i: usize = 0;
        while i < n
            invariant
                cs == c@,
                cs.len() <= usize::MAX,
                cs.len() >= 16,
                n == pltt_words(cs).len(),
                i <= n,
                colors@ == pltt_colors(cs).take(i as int),
                high == exists|k: int| 0 <= k < i && #[trigger] pltt_words(cs)[k] >= 0x8000,
            decreases n - i,
        {
            let w = read_u16(c, 16 + 2 * i).unwrap();
            assert(w == pltt_words(cs)[i as int]);
            high = high || w >= 0x8000;
            colors.push(Color::from_u16(w));
            i = i + 1;
            assert(colors@ =~= pltt_colors(cs).take(i as int));
        }
        assert(pltt_colors(cs).take(n as int) =~= pltt_colors(cs));
        let palette_indexes = if file.blocks.len() > 1 {
            assert(file@.blocks[1] == file.blocks@[1]@);
            let pb = &file.blocks[1];
            if !tag_is(&pb.id, 0x50, 0x4D, 0x43, 0x50) {
                return Err(NtrError::Malformed);
            }
            let p = pb.contents.as_slice();
            let ghost ps = p@;
            if p.len() < 8 {
                return Err(NtrError::Malformed);
            }
            let count = read_u16(p, 0).unwrap() as usize;
            if read_u16(p, 2).unwrap() != 0xBEEF || read_u32(p, 4).unwrap() != 8 {
                return Err(NtrError::Malformed);
            }
            if (p.len() - 8) / 2 < count {
                return Err(NtrError::Malformed);
            }
            let mut ix: Vec<u16> = Vec::new();
            let mut k: usize = 0;
            while k < count
                invariant
                    ps == p@,
                    ps.len() <= usize::MAX,
                    count == u16_at(ps, 0),
                    8 + 2 * count <= ps.len(),
                    k <= count,
                    ix@ == pcmp_indexes(ps).take(k as int),
                decreases count - k,
            {
                ix.push(read_u16(p, 8 + 2 * k).unwrap());
                k = k + 1;
                assert(ix@ =~= pcmp_indexes(ps).take(k as int));
            }
            assert(pcmp_indexes(ps).take(count as int) =~= pcmp_indexes(ps));
            ix
        } else {
            Vec::new()
        };
        let metadata = NclrMetadata {
            version: file.version,
            texture_format,
            pltt_0002,
            extended: ext == 1,
            invert_size,
            high_color_bit: high,
            palette_indexes,
        };
        Ok(Nclr { metadata, palette: Palette { colors } })
    }

    /// Decodes a palette from the bytes of a container.
    pub fn read_from_data(data: &[u8]) -> (r: Result<Nclr, NtrError>)
        ensures
            r is Ok <==> (crate::ntr::parse_file(data@) matches Some(f) && nclr_file_ok(f)),
            r matches Ok(n) ==> nclr_read_from(crate::ntr::parse_file(data@).unwrap(), n),
    {
        match NtrFile::read_from_data(data) {
            Ok(f) => Nclr::read_from_ntr_file(&f),
            Err(e) => Err(e),
        }
    }

    /// Encodes the palette as the bytes of a container.
    pub fn write_to_data(&self) -> (r: Result<Vec<u8>, NtrError>)
        ensures
            r is Ok <==> nclr_writable(*self) && encodable(nclr_file_view(*self)),
            r matches Ok(v) ==> v@ == file_bytes(nclr_file_view(*self)),
    {
        match self.write_to_ntr_file() {
            Ok(f) => f.write_to_data(),
            Err(e) => Err(e),
        }
    }
}

proof fn lemma_words_bytes(ws: Seq<u16>, pre: Seq<u8>, i: int)
    requires
        0 <= i < ws.len(),
    ensures
        words_bytes(ws).len() == 2 * ws.len(),
        u16_at(pre + words_bytes(ws), pre.len() + 2 * i) == ws[i],
    decreases ws.len(),
{
    let init = ws.drop_last();
    if i < ws.len() - 1 {
        lemma_words_bytes(init, pre, i);
        assert(pre + words_bytes(ws) =~= (pre + words_bytes(init)) + u16_bytes(ws.last()));
    } else {
        if init.len() > 0 {
            lemma_words_bytes(init, pre, 0);
        } else {
            assert(words_bytes(init) =~= Seq::<u8>::empty());
        }
        assert(pre + words_bytes(ws) =~= (pre + words_bytes(init)) + u16_bytes(ws.last())
            + Seq::<u8>::empty());
        lemma_u16_at_concat(pre + words_bytes(init), ws.last(), Seq::<u8>::empty());
    }
}

proof fn lemma_words_bytes_len(ws: Seq<u16>)
    ensures
        words_bytes(ws).len() == 2 * ws.len(),
    decreases ws.len(),
{
    if ws.len() > 0 {
        lemma_words_bytes_len(ws.drop_last());
    }
}

/// Whether a color is one that a packed word expands to: every channel a
/// multiple of 8.
pub open spec fn color_on_grid(c: Color) -> bool {
    c.red % 8 == 0 && c.green % 8 == 0 && c.blue % 8 == 0
}

/// Whether a palette and its configuration can be written and read back: a
/// 16- or 256-color format; a color size that fits, that fits 0x200 when it is
/// stored inverted, and that is not 0x100 then (where 0x200 minus the size is
/// the size itself); at least one color to carry a set high bit; colors that a
/// packed word expands to; and at most 0xFFFF palette indexes.
pub open spec fn nclr_legal(m: NclrMetadata, cs: Seq<Color>) -> bool {
    &&& m.texture_format.is_indexed()
    &&& 2 * cs.len() <= U32_MAX
    &&& (m.invert_size ==> 2 * cs.len() <= 0x200 && 2 * cs.len() != 0x100)
    &&& (m.high_color_bit ==> cs.len() > 0)
    &&& forall|i: int| 0 <= i < cs.len() ==> color_on_grid(#[trigger] cs[i])
    &&& m.palette_indexes@.len() <= 0xFFFF
}

proof fn lemma_grid_color(c: Color, high: bool)
    requires
        color_on_grid(c),
    ensures
        word_of_color(c) < 0x8000,
        color_of_word((word_of_color(c) + if high { 0x8000int } else { 0int }) as u16) == c,
        ((word_of_color(c) + if high { 0x8000int } else { 0int }) as u16 >= 0x8000) == high,
{
    let r = c.red;
    let g = c.green;
    let bl = c.blue;
    assert(r / 8 < 32 && g / 8 < 32 && bl / 8 < 32);
    let w = word_of_color(c);
    let x = (w + if high { 0x8000int } else { 0int }) as u16;
    assert(color_of_word(w) == c) by {
        assert(((r / 8 + (g / 8) * 32 + (bl / 8) * 1024) % 32) * 8 == r && ((((r / 8 + (g / 8)
            * 32 + (bl / 8) * 1024) / 32) % 32) * 8) == g && ((((r / 8 + (g / 8) * 32 + (bl / 8)
            * 1024) / 1024) % 32) * 8) == bl) by (bit_vector)
            requires
                r % 8 == 0,
                g % 8 == 0,
                bl % 8 == 0,
        ;
    }
    assert(x % 0x8000 == w);
    assert((x % 32 == (x % 0x8000) % 32) && ((x / 32) % 32 == ((x % 0x8000) / 32) % 32) && ((x
        / 1024) % 32 == ((x % 0x8000) / 1024) % 32)) by (bit_vector);
}

proof fn lemma_pltt_header(m: NclrMetadata, cs: Seq<Color>)
    requires
        2 * cs.len() <= U32_MAX,
        m.invert_size ==> 2 * cs.len() <= 0x200,
    ensures
        pltt_bytes(m, cs).len() == 16 + 2 * cs.len(),
        u16_at(pltt_bytes(m, cs), 0) == m.texture_format.code(),
        u16_at(pltt_bytes(m, cs), 2) == m.pltt_0002,
        u32_at(pltt_bytes(m, cs), 4) == if m.extended { 1u32 } else { 0u32 },
        u32_at(pltt_bytes(m, cs), 8) == (if m.invert_size { 0x200 - 2 * cs.len() as int } else { 2
            * cs.len() as int }) as u32,
        u32_at(pltt_bytes(m, cs), 12) == 0x10,
        forall|i: int| 0 <= i < cs.len() ==> u16_at(pltt_bytes(m, cs), 16 + 2 * i) == (
        #[trigger] color_words(cs, m.high_color_bit)[i]),
{
    let b = pltt_bytes(m, cs);
    let size = 2 * cs.len() as int;
    let ws = color_words(cs, m.high_color_bit);
    let tf = u16_bytes(m.texture_format.code());
    let free = u16_bytes(m.pltt_0002);
    let e = if m.extended { 1u32 } else { 0u32 };
    let ex = u32_bytes(e);
    let sv = (if m.invert_size { 0x200 - size } else { size }) as u32;
    let sz = u32_bytes(sv);
    let off = u32_bytes(0x10);
    let body = words_bytes(ws);
    lemma_words_bytes_len(ws);
    assert(b =~= Seq::<u8>::empty() + tf + (free + ex + sz + off + body));
    lemma_u16_at_concat(Seq::<u8>::empty(), m.texture_format.code(), free + ex + sz + off + body);
    assert(b =~= tf + free + (ex + sz + off + body));
    lemma_u16_at_concat(tf, m.pltt_0002, ex + sz + off + body);
    assert(b =~= (tf + free) + ex + (sz + off + body));
    lemma_u32_at_concat(tf + free, e, sz + off + body);
    assert(b =~= (tf + free + ex) + sz + (off + body));
    lemma_u32_at_concat(tf + free + ex, sv, off + body);
    assert(b =~= (tf + free + ex + sz) + off + body);
    lemma_u32_at_concat(tf + free + ex + sz, 0x10, body);
    let head = tf + free + ex + sz + off;
    assert(b =~= head + body);
    assert forall|i: int| 0 <= i < cs.len() implies u16_at(b, 16 + 2 * i) == (
    #[trigger] ws[i]) by {
        lemma_words_bytes(ws, head, i);
    }
}

proof fn lemma_pcmp_round_trip(ix: Seq<u16>)
    requires
        ix.len() <= 0xFFFF,
    ensures
        pcmp_ok(pcmp_bytes(ix)),
        pcmp_indexes(pcmp_bytes(ix)) == ix,
{
    let pb = pcmp_bytes(ix);
    lemma_words_bytes_len(ix);
    let h1 = u16_bytes(ix.len() as u16);
    let h2 = u16_bytes(0xBEEF);
    let h3 = u32_bytes(8);
    assert(pb =~= Seq::<u8>::empty() + h1 + (h2 + h3 + words_bytes(ix)));
    lemma_u16_at_concat(Seq::<u8>::empty(), ix.len() as u16, h2 + h3 + words_bytes(ix));
    assert(pb =~= h1 + h2 + (h3 + words_bytes(ix)));
    lemma_u16_at_concat(h1, 0xBEEF, h3 + words_bytes(ix));
    assert(pb =~= (h1 + h2) + h3 + words_bytes(ix));
    lemma_u32_at_concat(h1 + h2, 8, words_bytes(ix));
    assert forall|i: int| 0 <= i < ix.len() implies #[trigger] pcmp_indexes(pb)[i] == ix[i] by {
        lemma_words_bytes(ix, h1 + h2 + h3, i);
    }
    assert(pcmp_indexes(pb) =~= ix);
}

/// Reading the blocks that a palette is written as gives back the palette and
/// its configuration, for every legal palette and configuration.
pub proof fn lemma_nclr_round_trip(m: NclrMetadata, cs: Seq<Color>)
    requires
        nclr_legal(m, cs),
    ensures
        pltt_ok(pltt_bytes(m, cs)),
        pltt_colors(pltt_bytes(m, cs)) == cs,
        u16_at(pltt_bytes(m, cs), 0) == m.texture_format.code(),
        u16_at(pltt_bytes(m, cs), 2) == m.pltt_0002,
        (u32_at(pltt_bytes(m, cs), 4) == 1) == m.extended,
        pltt_inverted(pltt_bytes(m, cs)) == m.invert_size,
        pltt_high_bit(pltt_bytes(m, cs)) == m.high_color_bit,
        pcmp_ok(pcmp_bytes(m.palette_indexes@)),
        pcmp_indexes(pcmp_bytes(m.palette_indexes@)) == m.palette_indexes@,
{
    let b = pltt_bytes(m, cs);
    let ws = color_words(cs, m.high_color_bit);
    lemma_pltt_header(m, cs);
    assert(pltt_words(b).len() == cs.len());
    assert forall|i: int| 0 <= i < cs.len() implies #[trigger] pltt_words(b)[i] == ws[i] by {
        assert(u16_at(b, 16 + 2 * i) == ws[i]);
    }
    assert forall|i: int| 0 <= i < cs.len() implies #[trigger] pltt_colors(b)[i] == cs[i] by {
        lemma_grid_color(cs[i], m.high_color_bit);
        assert(pltt_words(b)[i] == ws[i]);
    }
    assert(pltt_colors(b) =~= cs);
    if m.high_color_bit {
        lemma_grid_color(cs[0], true);
        assert(pltt_words(b)[0] == ws[0]);
        assert(pltt_words(b)[0] >= 0x8000);
    } else {
        assert forall|i: int| 0 <= i < pltt_words(b).len() implies !(#[trigger] pltt_words(b)[i]
            >= 0x8000) by {
            lemma_grid_color(cs[i], false);
            assert(pltt_words(b)[i] == ws[i]);
        }
    }
    lemma_pcmp_round_trip(m.palette_indexes@);
}

impl NtrFormat for Nclr {
    fn read_from_ntr_file(file: &NtrFile) -> Result<Nclr, NtrError> {
        Nclr::read_from_ntr_file(file)
    }

    fn write_to_ntr_file(&self) -> Result<NtrFile, NtrError> {
        Nclr::write_to_ntr_file(self)
    }
}

} // verus!
