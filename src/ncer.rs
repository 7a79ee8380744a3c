use vstd::prelude::*;

use crate::bytes::{
    lemma_i16_at_concat, lemma_u16_at_concat, lemma_u16_at_prefix, lemma_u16_at_suffix,
    lemma_u32_at_concat, lemma_u32_at_prefix, lemma_u32_at_suffix,
    i16_at, i16_bytes, push_all, push_i16, push_u16, push_u32, read_i16, read_u16, read_u32,
    u16_at, u16_bytes, u32_at, u32_bytes,
};
use crate::enums::{NtrFileVersion, NtrMappingType, OamSize, ObjMode};
use crate::error::NtrError;
use crate::ntr::{
    NtrFormat,
    encodable, lemma_container_round_trip, file_bytes, label_views, labels_of, labels_size, labl_bytes, parse_file, tag_is,
    BlockView, NtrFile, NtrFileBlock, NtrFileView, U32_MAX,
};

verus! {

/// The attributes of one sprite, as the three hardware attribute words hold them.
#[derive(Clone, Copy, Debug, PartialEq, Eq, Structural)]
pub struct OamData {
    pub y: i8,
    pub x: i16,
    pub affine: bool,
    pub disable: bool,
    pub h_flip: bool,
    pub v_flip: bool,
    pub mode: ObjMode,
    pub mosaic: bool,
    pub color_mode: u8,
    pub oam_size: OamSize,
    pub tile_number: u16,
    pub priority: u8,
    pub palette_number: u8,
}

/// 1 for true, 0 for false.
pub open spec fn bit(b: bool) -> u16 {
    if b {
        1
    } else {
        0
    }
}

/// The object mode whose 2-bit code is `v`.
pub open spec fn obj_mode_of(v: u16) -> ObjMode {
    if v == 0 {
        ObjMode::Normal
    } else if v == 1 {
        ObjMode::Translucent
    } else if v == 2 {
        ObjMode::Window
    } else {
        ObjMode::Bitmap
    }
}

/// The sprite size whose (shape, size) code is given, if any.
pub open spec fn oam_size_of(shape: u8, size: u8) -> Option<OamSize> {
    if exists|s: OamSize| s.code() == (shape, size) {
        Some(choose|s: OamSize| s.code() == (shape, size))
    } else {
        None
    }
}

/// First attribute word: y (8 bits), affine (bit 8), disable (9), mode (10-11),
/// mosaic (12), color mode (13), shape (14-15).
pub open spec fn oam_attr0(o: OamData) -> u16 {
    ((o.y as u8) as u16) | (bit(o.affine) << 8u16) | (bit(o.disable) << 9u16) | (o.mode.code()
        << 10u16) | (bit(o.mosaic) << 12u16) | ((o.color_mode as u16) << 13u16) | ((
    o.oam_size.code().0 as u16) << 14u16)
}

/// Second attribute word: x as 9 bits (negative values plus 512), h-flip (bit
/// 12), v-flip (13), size (14-15).
pub open spec fn oam_attr1(o: OamData) -> u16 {
    ((if o.x >= 0 {
        o.x as int
    } else {
        512 + o.x
    }) as u16) | (bit(o.h_flip) << 12u16) | (bit(o.v_flip) << 13u16) | ((o.oam_size.code().1 as u16)
        << 14u16)
}

/// Third attribute word: tile number (10 bits), priority (10-11), palette (12-15).
pub open spec fn oam_attr2(o: OamData) -> u16 {
    o.tile_number | ((o.priority as u16) << 10u16) | ((o.palette_number as u16) << 12u16)
}

/// The x position that the low 9 bits of a word hold: values of 256 and more
/// stand for that value minus 512.
pub open spec fn oam_x_of(a1: u16) -> i16 {
    let x = a1 & 0x1FF;
    if x < 256 {
        x as i16
    } else {
        (x as int - 512) as i16
    }
}

/// The sprite that three attribute words hold, or `None` where the shape is 3.
/// Bits 9 to 11 of the second word are not read.
pub open spec fn oam_of_words(a0: u16, a1: u16, a2: u16) -> Option<OamData> {
    match oam_size_of(((a0 >> 14u16) & 3) as u8, ((a1 >> 14u16) & 3) as u8) {
        Some(sz) => Some(
            OamData {
                y: (a0 & 0xFF) as u8 as i8,
                x: oam_x_of(a1),
                affine: (a0 >> 8u16) & 1 != 0,
                disable: (a0 >> 9u16) & 1 != 0,
                h_flip: (a1 >> 12u16) & 1 != 0,
                v_flip: (a1 >> 13u16) & 1 != 0,
                mode: obj_mode_of((a0 >> 10u16) & 3),
                mosaic: (a0 >> 12u16) & 1 != 0,
                color_mode: ((a0 >> 13u16) & 1) as u8,
                oam_size: sz,
                tile_number: a2 & 0x3FF,
                priority: ((a2 >> 10u16) & 3) as u8,
                palette_number: ((a2 >> 12u16) & 0xF) as u8,
            },
        ),
        None => None,
    }
}

/// Fields within the widths that the words give them.
pub open spec fn oam_valid(o: OamData) -> bool {
    -256 <= o.x <= 255 && o.color_mode <= 1 && o.tile_number < 1024 && o.priority < 4
        && o.palette_number < 16
}

/// Words that a sprite record can come from: a shape other than 3 and bits 9
/// to 11 of the second word clear.
pub open spec fn oam_words_legal(a0: u16, a1: u16, a2: u16) -> bool {
    (a0 >> 14u16) != 3 && (a1 >> 9u16) & 7 == 0
}

proof fn lemma_obj_mode(v: u16)
    requires
        v < 4,
    ensures
        obj_mode_of(v).code() == v,
{
}

proof fn lemma_oam_size_of(s: OamSize)
    ensures
        oam_size_of(s.code().0, s.code().1) == Some(s),
{
    assert(exists|t: OamSize| t.code() == s.code());
    let t = choose|t: OamSize| t.code() == (s.code().0, s.code().1);
    assert(t == s);
}

proof fn lemma_words_size(shape: u8, size: u8)
    requires
        shape < 3,
        size < 4,
    ensures
        oam_size_of(shape, size) matches Some(s) && s.code() == (shape, size),
{
    let s = if shape == 0 {
        if size == 0 { OamSize::Oam8x8 } else if size == 1 { OamSize::Oam16x16 } else if size == 2 { OamSize::Oam32x32 } else { OamSize::Oam64x64 }
    } else if shape == 1 {
        if size == 0 { OamSize::Oam16x8 } else if size == 1 { OamSize::Oam32x8 } else if size == 2 { OamSize::Oam32x16 } else { OamSize::Oam64x32 }
    } else {
        if size == 0 { OamSize::Oam8x16 } else if size == 1 { OamSize::Oam8x32 } else if size == 2 { OamSize::Oam16x32 } else { OamSize::Oam32x64 }
    };
    assert(s.code() == (shape, size));
    lemma_oam_size_of(s);
}

proof fn lemma_attr0_fields(y: u8, af: u16, di: u16, mo: u16, mz: u16, cm: u16, sh: u16)
    requires
        af < 2,
        di < 2,
        mo < 4,
        mz < 2,
        cm < 2,
        sh < 4,
    ensures
        ({
            let a = (y as u16) | (af << 8u16) | (di << 9u16) | (mo << 10u16) | (mz << 12u16) | (cm
                << 13u16) | (sh << 14u16);
            &&& (a & 0xFF) as u8 == y
            &&& (a >> 8u16) & 1 == af
            &&& (a >> 9u16) & 1 == di
            &&& (a >> 10u16) & 3 == mo
            &&& (a >> 12u16) & 1 == mz
            &&& (a >> 13u16) & 1 == cm
            &&& (a >> 14u16) & 3 == sh
        }),
{
    assert({
        let a = (y as u16) | (af << 8u16) | (di << 9u16) | (mo << 10u16) | (mz << 12u16) | (cm
            << 13u16) | (sh << 14u16);
        &&& (a & 0xFF) as u8 == y
        &&& (a >> 8u16) & 1 == af
        &&& (a >> 9u16) & 1 == di
        &&& (a >> 10u16) & 3 == mo
        &&& (a >> 12u16) & 1 == mz
        &&& (a >> 13u16) & 1 == cm
        &&& (a >> 14u16) & 3 == sh
    }) by (bit_vector)
        requires
            af < 2,
            di < 2,
            mo < 4,
            mz < 2,
            cm < 2,
            sh < 4,
    ;
}

proof fn lemma_attr1_fields(x: u16, hf: u16, vf: u16, sz: u16)
    requires
        x < 512,
        hf < 2,
        vf < 2,
        sz < 4,
    ensures
        ({
            let a = x | (hf << 12u16) | (vf << 13u16) | (sz << 14u16);
            &&& a & 0x1FF == x
            &&& (a >> 12u16) & 1 == hf
            &&& (a >> 13u16) & 1 == vf
            &&& (a >> 14u16) & 3 == sz
            &&& (a >> 9u16) & 7 == 0
        }),
{
    assert({
        let a = x | (hf << 12u16) | (vf << 13u16) | (sz << 14u16);
        &&& a & 0x1FF == x
        &&& (a >> 12u16) & 1 == hf
        &&& (a >> 13u16) & 1 == vf
        &&& (a >> 14u16) & 3 == sz
        &&& (a >> 9u16) & 7 == 0
    }) by (bit_vector)
        requires
            x < 512,
            hf < 2,
            vf < 2,
            sz < 4,
    ;
}

proof fn lemma_attr2_fields(t: u16, p: u16, q: u16)
    requires
        t < 1024,
        p < 4,
        q < 16,
    ensures
        ({
            let a = t | (p << 10u16) | (q << 12u16);
            &&& a & 0x3FF == t
            &&& (a >> 10u16) & 3 == p
            &&& (a >> 12u16) & 0xF == q
        }),
{
    assert({
        let a = t | (p << 10u16) | (q << 12u16);
        &&& a & 0x3FF == t
        &&& (a >> 10u16) & 3 == p
        &&& (a >> 12u16) & 0xF == q
    }) by (bit_vector)
        requires
            t < 1024,
            p < 4,
            q < 16,
    ;
}

/// Decoding the words of a sprite record gives the record back, for every
/// record whose fields fit their widths.
pub proof fn lemma_oam_round_trip(o: OamData)
    requires
        oam_valid(o),
    ensures
        oam_of_words(oam_attr0(o), oam_attr1(o), oam_attr2(o)) == Some(o),
{
    let (shape, size) = o.oam_size.code();
    lemma_oam_size_of(o.oam_size);
    lemma_attr0_fields(
        o.y as u8,
        bit(o.affine),
        bit(o.disable),
        o.mode.code(),
        bit(o.mosaic),
        o.color_mode as u16,
        shape as u16,
    );
    let x9: u16 = (if o.x >= 0 {
        o.x as int
    } else {
        512 + o.x
    }) as u16;
    lemma_attr1_fields(x9, bit(o.h_flip), bit(o.v_flip), size as u16);
    lemma_attr2_fields(o.tile_number, o.priority as u16, o.palette_number as u16);
    lemma_obj_mode(o.mode.code());
    let y = o.y;
    assert(((y as u8) as i8) == y) by (bit_vector);
    assert(oam_x_of(oam_attr1(o)) == o.x);
    let a0 = oam_attr0(o);
    assert(((a0 >> 14u16) & 3) as u8 == shape);
    let a1 = oam_attr1(o);
    assert(((a1 >> 14u16) & 3) as u8 == size);
}

/// Encoding a decoded sprite record gives the words back, for every triple
/// whose shape is not 3 and whose second word has bits 9 to 11 clear.
pub proof fn lemma_oam_words_round_trip(a0: u16, a1: u16, a2: u16)
    requires
        oam_words_legal(a0, a1, a2),
    ensures
        oam_of_words(a0, a1, a2) matches Some(o) && oam_valid(o) && oam_attr0(o) == a0
            && oam_attr1(o) == a1 && oam_attr2(o) == a2,
{
    let shape = ((a0 >> 14u16) & 3) as u8;
    let size = ((a1 >> 14u16) & 3) as u8;
    assert(shape < 3 && size < 4) by (bit_vector)
        requires
            (a0 >> 14u16) != 3,
            shape == ((a0 >> 14u16) & 3) as u8,
            size == ((a1 >> 14u16) & 3) as u8,
    ;
    lemma_words_size(shape, size);
    let o = oam_of_words(a0, a1, a2).unwrap();
    assert((a0 >> 10u16) & 3 < 4) by (bit_vector);
    lemma_obj_mode((a0 >> 10u16) & 3);
    let m = (a0 >> 10u16) & 3;
    assert(a0 == ((((a0 & 0xFF) as u8) as i8) as u8) as u16 | (((a0 >> 8u16) & 1) << 8u16) | (((
    a0 >> 9u16) & 1) << 9u16) | (m << 10u16) | (((a0 >> 12u16) & 1) << 12u16) | ((((a0
        >> 13u16) & 1) as u8 as u16) << 13u16) | ((shape as u16) << 14u16)) by (bit_vector)
        requires
            m == (a0 >> 10u16) & 3,
            shape == ((a0 >> 14u16) & 3) as u8,
    ;
    assert(bit(o.affine) == (a0 >> 8u16) & 1) by {
        assert((a0 >> 8u16) & 1 < 2) by (bit_vector);
    }
    assert(bit(o.disable) == (a0 >> 9u16) & 1) by {
        assert((a0 >> 9u16) & 1 < 2) by (bit_vector);
    }
    assert(bit(o.mosaic) == (a0 >> 12u16) & 1) by {
        assert((a0 >> 12u16) & 1 < 2) by (bit_vector);
    }
    assert(oam_attr0(o) == a0);
    let x9 = a1 & 0x1FF;
    assert(x9 < 512) by (bit_vector)
        requires
            x9 == a1 & 0x1FF,
    ;
    assert(((if o.x >= 0 {
        o.x as int
    } else {
        512 + o.x
    }) as u16) == x9);
    assert(a1 == x9 | (((a1 >> 12u16) & 1) << 12u16) | (((a1 >> 13u16) & 1) << 13u16) | ((
    size as u16) << 14u16)) by (bit_vector)
        requires
            x9 == a1 & 0x1FF,
            (a1 >> 9u16) & 7 == 0,
            size == ((a1 >> 14u16) & 3) as u8,
    ;
    assert(bit(o.h_flip) == (a1 >> 12u16) & 1) by {
        assert((a1 >> 12u16) & 1 < 2) by (bit_vector);
    }
    assert(bit(o.v_flip) == (a1 >> 13u16) & 1) by {
        assert((a1 >> 13u16) & 1 < 2) by (bit_vector);
    }
    assert(oam_attr1(o) == a1);
    assert(a2 == (a2 & 0x3FF) | ((((a2 >> 10u16) & 3) as u8 as u16) << 10u16) | ((((a2
        >> 12u16) & 0xF) as u8 as u16) << 12u16)) by (bit_vector);
    assert(oam_attr2(o) == a2);
    assert(oam_valid(o)) by {
        assert(a2 & 0x3FF < 1024 && (a2 >> 10u16) & 3 < 4 && (a2 >> 12u16) & 0xF < 16 && (a0
            >> 13u16) & 1 < 2) by (bit_vector);
    }
}

impl OamData {
    /// Reads a sprite record from its three attribute words; `None` where the
    /// shape is 3.
    pub fn from_words(a0: u16, a1: u16, a2: u16) -> (r: Option<OamData>)
        ensures
            r == oam_of_words(a0, a1, a2),
    {
        let shape = ((a0 >> 14u16) & 3) as u8;
        let size = ((a1 >> 14u16) & 3) as u8;
        let oam_size = match OamSize::from_shape_size(shape, size) {
            Some(s) => s,
            None => {
                return None;
            },
        };
        proof {
            lemma_oam_size_of(oam_size);
        }
        let mv = (a0 >> 10u16) & 3;
        assert(mv < 4) by (bit_vector)
            requires
                mv == (a0 >> 10u16) & 3,
        ;
        let mode = if mv == 0 {
            ObjMode::Normal
        } else if mv == 1 {
            ObjMode::Translucent
        } else if mv == 2 {
            ObjMode::Window
        } else {
            ObjMode::Bitmap
        };
        let x9 = a1 & 0x1FF;
        assert(x9 < 512) by (bit_vector)
            requires
                x9 == a1 & 0x1FF,
        ;
        let x: i16 = if x9 < 256 {
            x9 as i16
        } else {
            (x9 as i16) - 512
        };
        Some(
            OamData {
                y: (a0 & 0xFF) as u8 as i8,
                x,
                affine: (a0 >> 8u16) & 1 != 0,
                disable: (a0 >> 9u16) & 1 != 0,
                h_flip: (a1 >> 12u16) & 1 != 0,
                v_flip: (a1 >> 13u16) & 1 != 0,
                mode,
                mosaic: (a0 >> 12u16) & 1 != 0,
                color_mode: ((a0 >> 13u16) & 1) as u8,
                oam_size,
                tile_number: a2 & 0x3FF,
                priority: ((a2 >> 10u16) & 3) as u8,
                palette_number: ((a2 >> 12u16) & 0xF) as u8,
            },
        )
    }

    /// The three attribute words of the record.
    pub fn to_words(&self) -> (r: (u16, u16, u16))
        ensures
            r == (oam_attr0(*self), oam_attr1(*self), oam_attr2(*self)),
    {
        let (shape, size) = self.oam_size.into_shape_size();
        let b_affine: u16 = if self.affine { 1 } else { 0 };
        let b_disable: u16 = if self.disable { 1 } else { 0 };
        let b_mosaic: u16 = if self.mosaic { 1 } else { 0 };
        let b_h: u16 = if self.h_flip { 1 } else { 0 };
        let b_v: u16 = if self.v_flip { 1 } else { 0 };
        let attr0 = ((self.y as u8) as u16) | (b_affine << 8u16) | (b_disable << 9u16) | (
        self.mode.into_u16() << 10u16) | (b_mosaic << 12u16) | ((self.color_mode as u16) << 13u16)
            | ((shape as u16) << 14u16);
        let x: u16 = if self.x >= 0 {
            self.x as u16
        } else {
            (512 + self.x) as u16
        };
        let attr1 = x | (b_h << 12u16) | (b_v << 13u16) | ((size as u16) << 14u16);
        let attr2 = self.tile_number | ((self.priority as u16) << 10u16) | ((
        self.palette_number as u16) << 12u16);
        (attr0, attr1, attr2)
    }
}

/// Flip and bounding attributes of a cell.
#[derive(Clone, Copy, Debug, PartialEq, Eq, Structural)]
pub struct CellAttribute {
    pub h_flip: bool,
    pub v_flip: bool,
    pub has_bounding_rectangle: bool,
    pub bounding_sphere_radius: u16,
}

/// The attribute that a word holds: radius in bits 0-5, h-flip (bit 8), v-flip
/// (9), both flips (10, which must equal the two together), bounding rectangle
/// (11). `None` where bit 10 disagrees.
pub open spec fn cell_attr_of(v: u16) -> Option<CellAttribute> {
    let h = v & 0x100 != 0;
    let w = v & 0x200 != 0;
    if (v & 0x400 != 0) != (h && w) {
        None
    } else {
        Some(
            CellAttribute {
                h_flip: h,
                v_flip: w,
                has_bounding_rectangle: v & 0x800 != 0,
                bounding_sphere_radius: v & 0x3f,
            },
        )
    }
}

/// The word of a cell attribute.
pub open spec fn cell_attr_word(a: CellAttribute) -> u16 {
    (a.bounding_sphere_radius & 0x3f) | (bit(a.h_flip) << 8u16) | (bit(a.v_flip) << 9u16) | (bit(
        a.h_flip && a.v_flip,
    ) << 10u16) | (bit(a.has_bounding_rectangle) << 11u16)
}

impl CellAttribute {
    pub fn from_u16(value: u16) -> (r: Option<CellAttribute>)
        ensures
            r == cell_attr_of(value),
    {
        let h = value & 0x100 != 0;
        let w = value & 0x200 != 0;
        if (value & 0x400 != 0) != (h && w) {
            return None;
        }
        Some(
            CellAttribute {
                h_flip: h,
                v_flip: w,
                has_bounding_rectangle: value & 0x800 != 0,
                bounding_sphere_radius: value & 0x3f,
            },
        )
    }

    pub fn into_u16(self) -> (r: u16)
        ensures
            r == cell_attr_word(self),
    {
        let h: u16 = if self.h_flip { 1 } else { 0 };
        let w: u16 = if self.v_flip { 1 } else { 0 };
        let hw: u16 = if self.h_flip && self.v_flip { 1 } else { 0 };
        let b: u16 = if self.has_bounding_rectangle { 1 } else { 0 };
        (self.bounding_sphere_radius & 0x3f) | (h << 8u16) | (w << 9u16) | (hw << 10u16) | (b
            << 11u16)
    }
}

/// Decoding the word of a cell attribute gives the attribute back, for every
/// attribute whose radius fits its 6 bits; and encoding a decoded word gives
/// the word back, for every word whose unused bits (6, 7, 12 to 15) are clear.
pub proof fn lemma_cell_attr_round_trip(a: CellAttribute, v: u16)
    ensures
        a.bounding_sphere_radius < 64 ==> cell_attr_of(cell_attr_word(a)) == Some(a),
        v & 0xF0C0 == 0 && cell_attr_of(v) is Some ==> cell_attr_word(cell_attr_of(v).unwrap())
            == v,
{
    let r = a.bounding_sphere_radius;
    let h = bit(a.h_flip);
    let w = bit(a.v_flip);
    let hw = bit(a.h_flip && a.v_flip);
    let b = bit(a.has_bounding_rectangle);
    assert(h < 2 && w < 2 && b < 2 && hw == if h == 1 && w == 1 { 1u16 } else { 0u16 });
    let x = (r & 0x3f) | (h << 8u16) | (w << 9u16) | (hw << 10u16) | (b << 11u16);
    assert(r < 64 ==> x & 0x3f == r && (x & 0x100 != 0) == (h == 1) && (x & 0x200 != 0) == (w
        == 1) && (x & 0x400 != 0) == (hw == 1) && (x & 0x800 != 0) == (b == 1)) by (bit_vector)
        requires
            x == (r & 0x3f) | (h << 8u16) | (w << 9u16) | (hw << 10u16) | (b << 11u16),
            h < 2,
            w < 2,
            b < 2,
            hw == if h == 1 && w == 1 { 1u16 } else { 0u16 },
    ;
    let vh: u16 = if v & 0x100 != 0 { 1 } else { 0 };
    let vw: u16 = if v & 0x200 != 0 { 1 } else { 0 };
    let vb: u16 = if v & 0x800 != 0 { 1 } else { 0 };
    let vhw: u16 = if v & 0x400 != 0 { 1 } else { 0 };
    assert(v & 0xF0C0 == 0 ==> (v & 0x3f) | (vh << 8u16) | (vw << 9u16) | (vhw << 10u16) | (vb
        << 11u16) == v) by (bit_vector)
        requires
            vh == if v & 0x100 != 0 { 1u16 } else { 0u16 },
            vw == if v & 0x200 != 0 { 1u16 } else { 0u16 },
            vb == if v & 0x800 != 0 { 1u16 } else { 0u16 },
            vhw == if v & 0x400 != 0 { 1u16 } else { 0u16 },
    ;
    assert((v & 0x3f) & 0x3f == v & 0x3f) by (bit_vector);
}

/// The box a cell's sprites lie in.
#[derive(Clone, Copy, Debug, PartialEq, Eq, Structural)]
pub struct BoundingRectangle {
    pub max_x: i16,
    pub max_y: i16,
    pub min_x: i16,
    pub min_y: i16,
}

/// A cell: its attribute, its sprites and, where the bank has them, its box.
pub struct Cell {
    pub attribute: CellAttribute,
    pub oam_data: Vec<OamData>,
    pub bounding_rectangle: Option<BoundingRectangle>,
}

/// What a cell is.
pub struct CellView {
    pub attribute: CellAttribute,
    pub oam: Seq<OamData>,
    pub rect: Option<BoundingRectangle>,
}

impl View for Cell {
    type V = CellView;

    open spec fn view(&self) -> CellView {
        CellView { attribute: self.attribute, oam: self.oam_data@, rect: self.bounding_rectangle }
    }
}

/// Where a cell's graphics come from in VRAM transfers.
#[derive(Clone, Copy, Debug, PartialEq, Eq, Structural)]
pub struct CellVramTransferData {
    pub src_offset: u32,
    pub size: u32,
}

/// The VRAM transfer table.
pub struct VramData {
    pub max_size: u32,
    pub data: Vec<CellVramTransferData>,
}

/// A cell bank: cells with their sprites, optional tables and labels.
pub struct Ncer {
    pub version: NtrFileVersion,
    pub cells: Vec<Cell>,
    pub mapping_type: NtrMappingType,
    pub vram_data: Option<VramData>,
    pub has_user_extended_attribute_data: bool,
    pub labels: Vec<Vec<u8>>,
}

/// The views of a list of cells.
pub open spec fn cell_views(cs: Seq<Cell>) -> Seq<CellView> {
    cs.map_values(|c: Cell| c@)
}

/// Bytes of one sprite record.
pub open spec fn oam_bytes(o: OamData) -> Seq<u8> {
    u16_bytes(oam_attr0(o)) + u16_bytes(oam_attr1(o)) + u16_bytes(oam_attr2(o))
}

/// Bytes of a list of sprite records.
pub open spec fn oams_bytes(os: Seq<OamData>) -> Seq<u8>
    decreases os.len(),
{
    if os.len() == 0 {
        Seq::empty()
    } else {
        oams_bytes(os.drop_last()) + oam_bytes(os.last())
    }
}

/// Number of sprite records in all the cells.
pub open spec fn total_oams(cs: Seq<CellView>) -> int
    decreases cs.len(),
{
    if cs.len() == 0 {
        0
    } else {
        total_oams(cs.drop_last()) + cs.last().oam.len()
    }
}

/// The sprite records of all the cells, cell after cell.
pub open spec fn cells_oam_bytes(cs: Seq<CellView>) -> Seq<u8>
    decreases cs.len(),
{
    if cs.len() == 0 {
        Seq::empty()
    } else {
        cells_oam_bytes(cs.drop_last()) + oams_bytes(cs.last().oam)
    }
}

pub open spec fn rect_bytes(r: BoundingRectangle) -> Seq<u8> {
    i16_bytes(r.max_x) + i16_bytes(r.max_y) + i16_bytes(r.min_x) + i16_bytes(r.min_y)
}

/// A cell's table entry: sprite count, attribute word, where its sprites start
/// among all sprite bytes, then its box if it has one.
pub open spec fn cell_entry_bytes(c: CellView, offset: int) -> Seq<u8> {
    u16_bytes(c.oam.len() as u16) + u16_bytes(cell_attr_word(c.attribute)) + u32_bytes(
        offset as u32,
    ) + match c.rect {
        Some(r) => rect_bytes(r),
        None => Seq::empty(),
    }
}

pub open spec fn cell_entries_bytes(cs: Seq<CellView>) -> Seq<u8>
    decreases cs.len(),
{
    if cs.len() == 0 {
        Seq::empty()
    } else {
        cell_entries_bytes(cs.drop_last()) + cell_entry_bytes(
            cs.last(),
            6 * total_oams(cs.drop_last()),
        )
    }
}

/// Zero bytes that bring a length of `n` to a multiple of 4.
pub open spec fn pad4(n: int) -> Seq<u8> {
    Seq::new(((4 - n % 4) % 4) as nat, |i: int| 0u8)
}

/// The cell table and sprite records, padded to a multiple of 4 bytes.
pub open spec fn cell_data_bytes(cs: Seq<CellView>) -> Seq<u8> {
    let d = cell_entries_bytes(cs) + cells_oam_bytes(cs);
    d + pad4(d.len() as int)
}

pub open spec fn vram_pairs_bytes(ds: Seq<CellVramTransferData>) -> Seq<u8>
    decreases ds.len(),
{
    if ds.len() == 0 {
        Seq::empty()
    } else {
        vram_pairs_bytes(ds.drop_last()) + u32_bytes(ds.last().src_offset) + u32_bytes(
            ds.last().size,
        )
    }
}

/// The VRAM table: largest size, the constant 8, then (offset, size) pairs.
pub open spec fn vram_bytes(max_size: u32, ds: Seq<CellVramTransferData>) -> Seq<u8> {
    u32_bytes(max_size) + u32_bytes(8) + vram_pairs_bytes(ds)
}

pub open spec fn uext_index_bytes(n: int, k: int) -> Seq<u8>
    decreases k,
{
    if k <= 0 {
        Seq::empty()
    } else {
        uext_index_bytes(n, k - 1) + u32_bytes((8 + 4 * (n + k - 1)) as u32)
    }
}

pub open spec fn zero_words(k: int) -> Seq<u8> {
    Seq::new((4 * k) as nat, |i: int| 0u8)
}

/// The user-extended attribute table of `n` cells, wholly derived from `n`:
/// tag `TACU`, size 16 + 8n, n, 1, 8, the offsets 8 + 4(n + i), then n zeros.
pub open spec fn uext_bytes(n: int) -> Seq<u8> {
    seq![0x54u8, 0x41, 0x43, 0x55] + u32_bytes((16 + 8 * n) as u32) + u16_bytes(n as u16)
        + u16_bytes(1) + u32_bytes(8) + uext_index_bytes(n, n) + zero_words(n)
}

/// Payload of the VRAM table, if there is one.
pub open spec fn vram_part(v: Option<(u32, Seq<CellVramTransferData>)>) -> Seq<u8> {
    match v {
        Some((m, ds)) => vram_bytes(m, ds),
        None => Seq::empty(),
    }
}

/// Payload of a cell-bank block (tag `KBEC`): cell count, the first cell's
/// bounding-rectangle flag, 0x18, mapping mode, VRAM table offset (0 if none),
/// 0, user-extended table offset (0 if none), then the cell data, the VRAM
/// table and the user-extended table.
pub open spec fn cebk_bytes(
    cs: Seq<CellView>,
    mt: NtrMappingType,
    vram: Option<(u32, Seq<CellVramTransferData>)>,
    uext: bool,
) -> Seq<u8> {
    let cd = cell_data_bytes(cs);
    let vd = vram_part(vram);
    u16_bytes(cs.len() as u16) + u16_bytes(bit(cs[0].attribute.has_bounding_rectangle))
        + u32_bytes(0x18) + u32_bytes(mt.ncer_code()) + u32_bytes(
        if vram is Some {
            (0x18 + cd.len()) as u32
        } else {
            0
        },
    ) + u32_bytes(0) + u32_bytes(
        if uext {
            (0x18 + cd.len() + vd.len()) as u32
        } else {
            0
        },
    ) + cd + vd + if uext {
        uext_bytes(cs.len() as int)
    } else {
        Seq::empty()
    }
}

/// Whether a bank fits the block's fields: at least one cell and at most
/// 0xFFFF, at most 0xFFFF sprites per cell, offsets that fit 32 bits, and a
/// user-extended table whose size fits 16 bits.
pub open spec fn cebk_encodable(
    cs: Seq<CellView>,
    vram: Option<(u32, Seq<CellVramTransferData>)>,
    uext: bool,
) -> bool {
    let cd = cell_data_bytes(cs);
    let vd = vram_part(vram);
    &&& 1 <= cs.len() <= 0xFFFF
    &&& forall|i: int| 0 <= i < cs.len() ==> (#[trigger] cs[i]).oam.len() <= 0xFFFF
    &&& cd.len() <= U32_MAX
    &&& vd.len() <= U32_MAX
    &&& (vram is Some ==> 0x18 + cd.len() <= U32_MAX)
    &&& (uext ==> 0x18 + cd.len() + vd.len() <= U32_MAX && 16 + 8 * cs.len() <= 0xFFFF)
}

proof fn lemma_oams_len(os: Seq<OamData>)
    ensures
        oams_bytes(os).len() == 6 * os.len(),
    decreases os.len(),
{
    if os.len() > 0 {
        lemma_oams_len(os.drop_last());
    }
}

proof fn lemma_cells_oam_len(cs: Seq<CellView>)
    ensures
        cells_oam_bytes(cs).len() == 6 * total_oams(cs),
        total_oams(cs) >= 0,
    decreases cs.len(),
{
    if cs.len() > 0 {
        lemma_cells_oam_len(cs.drop_last());
        lemma_oams_len(cs.last().oam);
    }
}

proof fn lemma_total_oams_mono(cs: Seq<CellView>, k: int)
    requires
        0 <= k <= cs.len(),
    ensures
        total_oams(cs.take(k)) <= total_oams(cs),
    decreases cs.len() - k,
{
    if k < cs.len() {
        lemma_total_oams_mono(cs, k + 1);
        assert(cs.take(k + 1).drop_last() =~= cs.take(k));
    } else {
        assert(cs.take(k) =~= cs);
    }
}

proof fn lemma_entries_len(cs: Seq<CellView>)
    ensures
        cell_entries_bytes(cs).len() % 4 == 0,
    decreases cs.len(),
{
    if cs.len() > 0 {
        lemma_entries_len(cs.drop_last());
    }
}

/// The cell data ends with two zero bytes of padding where the cells hold an
/// odd number of sprite records in all, and with none where the number is even.
pub proof fn lemma_cell_data_padding(cs: Seq<CellView>)
    ensures
        cell_data_bytes(cs) == cell_entries_bytes(cs) + cells_oam_bytes(cs) + (if total_oams(cs)
            % 2 == 1 {
            seq![0u8, 0u8]
        } else {
            Seq::<u8>::empty()
        }),
{
    lemma_entries_len(cs);
    lemma_cells_oam_len(cs);
    let d = cell_entries_bytes(cs) + cells_oam_bytes(cs);
    let t = total_oams(cs);
    assert(d.len() % 4 == (6 * t) % 4) by (nonlinear_arith)
        requires
            d.len() == cell_entries_bytes(cs).len() + 6 * t,
            cell_entries_bytes(cs).len() % 4 == 0,
    ;
    if t % 2 == 1 {
        assert((6 * t) % 4 == 2) by (nonlinear_arith)
            requires
                t % 2 == 1,
        ;
        assert(pad4(d.len() as int) =~= seq![0u8, 0u8]);
    } else {
        assert((6 * t) % 4 == 0) by (nonlinear_arith)
            requires
                t % 2 == 0,
        ;
        assert(pad4(d.len() as int) =~= Seq::<u8>::empty());
    }
}

fn push_oams(out: &mut Vec<u8>, os: &Vec<OamData>)
    ensures
        final(out)@ == old(out)@ + oams_bytes(os@),
{
    let mut j: usize = 0;
    while j < os.len()
        invariant
            j <= os@.len(),
            out@ == old(out)@ + oams_bytes(os@.take(j as int)),
        decreases os@.len() - j,
    {
        assert(os@.take(j + 1).drop_last() =~= os@.take(j as int));
        let (a0, a1, a2) = os[j].to_words();
        push_u16(out, a0);
        push_u16(out, a1);
        push_u16(out, a2);
        j = j + 1;
        assert(out@ =~= old(out)@ + oams_bytes(os@.take(j as int)));
    }
    assert(os@.take(j as int) =~= os@);
}

impl Ncer {
    /// The VRAM table as plain values.
    pub open spec fn vram_view(&self) -> Option<(u32, Seq<CellVramTransferData>)> {
        match self.vram_data {
            Some(v) => Some((v.max_size, v.data@)),
            None => None,
        }
    }

    /// The cell-bank block. Fails where the bank does not fit the block's fields.
    pub fn to_cebk_block(&self) -> (r: Result<NtrFileBlock, NtrError>)
        ensures
            r is Ok <==> cebk_encodable(
                cell_views(self.cells@),
                self.vram_view(),
                self.has_user_extended_attribute_data,
            ),
            r matches Ok(b) ==> b.id@ == seq![0x4Bu8, 0x42, 0x45, 0x43] && b.contents@
                == cebk_bytes(
                cell_views(self.cells@),
                self.mapping_type,
                self.vram_view(),
                self.has_user_extended_attribute_data,
            ),
            r matches Err(e) ==> e == NtrError::Precondition,
    {
        let ghost cs = cell_views(self.cells@);
        let n = self.cells.len();
        if n == 0 || n > 0xFFFF {
            return Err(NtrError::Precondition);
        }
        // sprite records of all cells
        let mut oam_data: Vec<u8> = Vec::new();
        let mut i: usize = 0;
        while i < n
            invariant
                n == self.cells@.len(),
                cs == cell_views(self.cells@),
                i <= n,
                oam_data@ == cells_oam_bytes(cs.take(i as int)),
            decreases n - i,
        {
            assert(cs.take(i + 1).drop_last() =~= cs.take(i as int));
            push_oams(&mut oam_data, &self.cells[i].oam_data);
            i = i + 1;
        }
        assert(cs.take(n as int) =~= cs);
        // the cell table
        let mut cell_data: Vec<u8> = Vec::new();
        let mut offset: u64 = 0;
        let mut i: usize = 0;
        while i < n
            invariant
                n == self.cells@.len(),
                cs == cell_views(self.cells@),
                oam_data@ == cells_oam_bytes(cs),
                i <= n,
                offset == 6 * total_oams(cs.take(i as int)),
                cell_data@ == cell_entries_bytes(cs.take(i as int)),
                forall|k: int| 0 <= k < i ==> (#[trigger] cs[k]).oam.len() <= 0xFFFF,
            decreases n - i,
        {
            assert(cs.take(i + 1).drop_last() =~= cs.take(i as int));
            let cell = &self.cells[i];
            let count = cell.oam_data.len();
            proof {
                lemma_cells_oam_len(cs.take(i as int));
                lemma_cells_oam_len(cs);
                lemma_total_oams_mono(cs, i as int);
                lemma_entries_len(cs);
            }
            if count > 0xFFFF || offset > U32_MAX {
                proof {
                    if offset > U32_MAX {
                        assert(cell_data_bytes(cs).len() >= cells_oam_bytes(cs).len());
                    }
                }
                return Err(NtrError::Precondition);
            }
            push_u16(&mut cell_data, count as u16);
            push_u16(&mut cell_data, cell.attribute.into_u16());
            push_u32(&mut cell_data, offset as u32);
            match &cell.bounding_rectangle {
                Some(br) => {
                    push_i16(&mut cell_data, br.max_x);
                    push_i16(&mut cell_data, br.max_y);
                    push_i16(&mut cell_data, br.min_x);
                    push_i16(&mut cell_data, br.min_y);
                },
                None => {},
            }
            assert(cell_data@ =~= cell_entries_bytes(cs.take(i + 1)));
            proof {
                lemma_cells_oam_len(cs.take(i + 1));
                lemma_total_oams_mono(cs, i + 1);
            }
            offset = offset + 6 * (count as u64);
            assert(cs[i as int].oam.len() == count);
            i = i + 1;
        }
        assert(cs.take(n as int) =~= cs);
        push_all(&mut cell_data, oam_data.as_slice());
        let ghost unpadded = cell_data@;
        while cell_data.len() % 4 != 0
            invariant
                cell_data@ == unpadded + Seq::new(
                    (cell_data@.len() - unpadded.len()) as nat,
                    |k: int| 0u8,
                ),
                unpadded.len() <= cell_data@.len() <= unpadded.len() + 3,
                cell_data@.len() % 4 == 0 ==> cell_data@.len() == unpadded.len() + (4
                    - unpadded.len() % 4) % 4,
                cell_data@.len() % 4 != 0 ==> cell_data@.len() - unpadded.len() < (4
                    - unpadded.len() % 4) % 4,
            decreases 4 - (cell_data@.len() - unpadded.len()),
        {
            cell_data.push(0);
            assert(cell_data@ =~= unpadded + Seq::new(
                (cell_data@.len() - unpadded.len()) as nat,
                |k: int| 0u8,
            ));
        }
        assert(cell_data@ =~= cell_data_bytes(cs));
        if cell_data.len() as u64 > U32_MAX {
            return Err(NtrError::Precondition);
        }
        let cell_data_len = cell_data.len() as u64;
        let mut vram: Vec<u8> = Vec::new();
        match &self.vram_data {
            Some(v) => {
                push_u32(&mut vram, v.max_size);
                push_u32(&mut vram, 8);
                let ghost head = vram@;
                let mut k: usize = 0;
                while k < v.data.len()
                    invariant
                        k <= v.data@.len(),
                        vram@ == head + vram_pairs_bytes(v.data@.take(k as int)),
                    decreases v.data@.len() - k,
                {
                    assert(v.data@.take(k + 1).drop_last() =~= v.data@.take(k as int));
                    push_u32(&mut vram, v.data[k].src_offset);
                    push_u32(&mut vram, v.data[k].size);
                    k = k + 1;
                    assert(vram@ =~= head + vram_pairs_bytes(v.data@.take(k as int)));
                }
                assert(v.data@.take(k as int) =~= v.data@);
                assert(vram@ =~= vram_part(self.vram_view()));
            },
            None => {
                assert(vram@ =~= vram_part(self.vram_view()));
            },
        }
        if vram.len() as u64 > U32_MAX {
            return Err(NtrError::Precondition);
        }
        let vram_len = vram.len() as u64;
        let mut uext: Vec<u8> = Vec::new();
        if self.has_user_extended_attribute_data {
            if 16 + 8 * (n as u64) > 0xFFFF {
                return Err(NtrError::Precondition);
            }
            let nn = n as u16;
            push_all(&mut uext, &[0x54u8, 0x41, 0x43, 0x55]);
            push_u32(&mut uext, (16 + nn * 8) as u32);
            push_u16(&mut uext, nn);
            push_u16(&mut uext, 1);
            push_u32(&mut uext, 8);
            let ghost head = uext@;
            let mut k: u16 = 0;
            while k < nn
                invariant
                    k <= nn,
                    16 + 8 * nn <= 0xFFFF,
                    uext@ == head + uext_index_bytes(nn as int, k as int),
                decreases nn - k,
            {
                push_u32(&mut uext, (8 + 4 * (nn + k)) as u32);
                k = k + 1;
                assert(uext@ =~= head + uext_index_bytes(nn as int, k as int));
            }
            let ghost head2 = uext@;
            let mut k: u16 = 0;
            while k < nn
                invariant
                    k <= nn,
                    uext@ == head2 + zero_words(k as int),
                decreases nn - k,
            {
                push_u32(&mut uext, 0);
                k = k + 1;
                assert(uext@ =~= head2 + zero_words(k as int));
            }
            assert(uext@ =~= uext_bytes(n as int));
        }
        let vram_offset: u64 = if self.vram_data.is_some() {
            if 0x18 + cell_data_len > U32_MAX {
                return Err(NtrError::Precondition);
            }
            0x18 + cell_data_len
        } else {
            0
        };
        let uext_offset: u64 = if self.has_user_extended_attribute_data {
            if 0x18 + cell_data_len + vram_len > U32_MAX {
                return Err(NtrError::Precondition);
            }
            0x18 + cell_data_len + vram_len
        } else {
            0
        };
        let mut c: Vec<u8> = Vec::new();
        push_u16(&mut c, n as u16);
        push_u16(&mut c, if self.cells[0].attribute.has_bounding_rectangle { 1 } else { 0 });
        push_u32(&mut c, 0x18);
        push_u32(&mut c, self.mapping_type.into_u32_ncer());
        push_u32(&mut c, vram_offset as u32);
        push_u32(&mut c, 0);
        push_u32(&mut c, uext_offset as u32);
        push_all(&mut c, cell_data.as_slice());
        push_all(&mut c, vram.as_slice());
        push_all(&mut c, uext.as_slice());
        assert(cs[0] == self.cells@[0]@);
        assert(c@ =~= cebk_bytes(
            cs,
            self.mapping_type,
            self.vram_view(),
            self.has_user_extended_attribute_data,
        ));
        Ok(NtrFileBlock { id: [0x4B, 0x42, 0x45, 0x43], contents: c })
    }
}

/// Size of a cell table entry: 16 bytes where the bank has bounding rectangles, else 8.
pub open spec fn entry_size(c: Seq<u8>) -> int {
    if u16_at(c, 2) == 1 {
        16
    } else {
        8
    }
}

/// Number of cells in a cell-bank payload.
pub open spec fn cebk_n(c: Seq<u8>) -> int {
    u16_at(c, 0) as int
}

/// Where the table entry of cell `i` starts.
pub open spec fn entry_pos(c: Seq<u8>, i: int) -> int {
    24 + i * entry_size(c)
}

/// Number of sprite records of cell `i`.
pub open spec fn entry_count(c: Seq<u8>, i: int) -> int {
    u16_at(c, entry_pos(c, i)) as int
}

/// Number of sprite records of the cells before cell `i`.
pub open spec fn count_prefix(c: Seq<u8>, i: int) -> int
    decreases i,
{
    if i <= 0 {
        0
    } else {
        count_prefix(c, i - 1) + entry_count(c, i - 1)
    }
}

/// Where the sprite records start: right after the cell table.
pub open spec fn oam_start(c: Seq<u8>) -> int {
    24 + cebk_n(c) * entry_size(c)
}

/// Where record `j` of cell `i` starts.
pub open spec fn oam_pos(c: Seq<u8>, i: int, j: int) -> int {
    oam_start(c) + 6 * (count_prefix(c, i) + j)
}

/// Where the sprite records and their padding end: two bytes of padding follow
/// an odd number of records.
pub open spec fn after_oams(c: Seq<u8>) -> int {
    let t = count_prefix(c, cebk_n(c));
    oam_start(c) + 6 * t + if t % 2 == 1 {
        2int
    } else {
        0int
    }
}

/// Where the VRAM table, if any, ends.
pub open spec fn after_vram(c: Seq<u8>) -> int {
    after_oams(c) + if u32_at(c, 12) != 0 {
        8 + 8 * cebk_n(c)
    } else {
        0int
    }
}

/// The attribute of cell `i`.
pub open spec fn entry_attr(c: Seq<u8>, i: int) -> Option<CellAttribute> {
    cell_attr_of(u16_at(c, entry_pos(c, i) + 2))
}

/// The bounding rectangle of cell `i`, where the bank has them.
pub open spec fn entry_rect(c: Seq<u8>, i: int) -> Option<BoundingRectangle> {
    if u16_at(c, 2) == 1 {
        let p = entry_pos(c, i) + 8;
        Some(
            BoundingRectangle {
                max_x: i16_at(c, p),
                max_y: i16_at(c, p + 2),
                min_x: i16_at(c, p + 4),
                min_y: i16_at(c, p + 6),
            },
        )
    } else {
        None
    }
}

/// Record `j` of cell `i`.
pub open spec fn entry_oam(c: Seq<u8>, i: int, j: int) -> Option<OamData> {
    let p = oam_pos(c, i, j);
    oam_of_words(u16_at(c, p), u16_at(c, p + 2), u16_at(c, p + 4))
}

/// Whether a cell-bank payload is well formed: a header of at least one cell,
/// a flag of 0 or 1, 0x18, a known mapping mode, a VRAM table offset, 0 and a
/// user-extended table offset; entries whose attribute is consistent and agrees
/// with the flag; records of a legal shape; the padding; a VRAM table (with the
/// constant 8) where its offset is not 0; a user-extended table, exactly as
/// `uext_bytes` gives it, where its offset is not 0.
pub open spec fn cebk_valid(c: Seq<u8>) -> bool {
    &&& cebk_header_ok(c)
    &&& cebk_entries_ok(c)
    &&& cebk_oams_ok(c)
    &&& cebk_vram_ok(c)
    &&& cebk_uext_ok(c)
}

/// The header: at least one cell, a flag of 0 or 1, 0x18, a known mapping mode,
/// a reserved 0, and room for the cell table.
pub open spec fn cebk_header_ok(c: Seq<u8>) -> bool {
    &&& c.len() >= 24
    &&& cebk_n(c) > 0
    &&& u16_at(c, 2) <= 1
    &&& u32_at(c, 4) == 0x18
    &&& (exists|m: NtrMappingType| m.ncer_code() == u32_at(c, 8))
    &&& u32_at(c, 16) == 0
    &&& oam_start(c) <= c.len()
}

/// Every cell attribute is consistent and agrees with the bank's flag.
pub open spec fn cebk_entries_ok(c: Seq<u8>) -> bool {
    forall|i: int|
        0 <= i < cebk_n(c) ==> (#[trigger] entry_attr(c, i)) is Some && entry_attr(
            c,
            i,
        ).unwrap().has_bounding_rectangle == (u16_at(c, 2) == 1)
}

/// The records and their padding are there and every record has a legal shape.
pub open spec fn cebk_oams_ok(c: Seq<u8>) -> bool {
    &&& after_oams(c) <= c.len()
    &&& forall|i: int, j: int|
        0 <= i < cebk_n(c) && 0 <= j < entry_count(c, i) ==> (#[trigger] entry_oam(c, i, j)) is Some
}

/// Where its offset is not 0, the VRAM table is there with the constant 8.
pub open spec fn cebk_vram_ok(c: Seq<u8>) -> bool {
    u32_at(c, 12) != 0 ==> after_vram(c) <= c.len() && u32_at(c, after_oams(c) + 4) == 8
}

/// Where its offset is not 0, the user-extended table is there exactly as
/// `uext_bytes` gives it.
pub open spec fn cebk_uext_ok(c: Seq<u8>) -> bool {
    let n = cebk_n(c);
    let av = after_vram(c);
    u32_at(c, 20) != 0 ==> av + 16 + 8 * n <= c.len() && 16 + 8 * n <= 0xFFFF && c.subrange(
        av,
        av + 16 + 8 * n,
    ) == uext_bytes(n)
}

/// The cells of a well-formed cell-bank payload.
pub open spec fn cebk_cells(c: Seq<u8>) -> Seq<CellView> {
    Seq::new(
        cebk_n(c) as nat,
        |i: int|
            CellView {
                attribute: entry_attr(c, i).unwrap(),
                oam: Seq::new(entry_count(c, i) as nat, |j: int| entry_oam(c, i, j).unwrap()),
                rect: entry_rect(c, i),
            },
    )
}

/// The VRAM transfer pairs of a well-formed payload that has a VRAM table.
pub open spec fn cebk_vram_pairs(c: Seq<u8>) -> Seq<CellVramTransferData> {
    Seq::new(
        cebk_n(c) as nat,
        |i: int|
            CellVramTransferData {
                src_offset: u32_at(c, after_oams(c) + 8 + 8 * i),
                size: u32_at(c, after_oams(c) + 12 + 8 * i),
            },
    )
}

proof fn lemma_count_prefix_mono(c: Seq<u8>, i: int, k: int)
    requires
        0 <= i <= k,
    ensures
        count_prefix(c, i) <= count_prefix(c, k),
        count_prefix(c, i) >= 0,
    decreases k,
{
    if i < k {
        lemma_count_prefix_mono(c, i, k - 1);
    }
    if i > 0 {
        lemma_count_prefix_mono(c, 0, i - 1);
    }
}

/// Reads the cell table: each cell's record count, attribute and box.
fn read_cell_table(c: &[u8]) -> (r: Result<
    (Vec<u16>, Vec<CellAttribute>, Vec<Option<BoundingRectangle>>, u64),
    NtrError,
>)
    requires
        cebk_header_ok(c@),
    ensures
        r is Ok <==> cebk_entries_ok(c@),
        r matches Ok((counts, attrs, rects, total)) ==> {
            &&& counts@.len() == cebk_n(c@)
            &&& attrs@.len() == cebk_n(c@)
            &&& rects@.len() == cebk_n(c@)
            &&& total == count_prefix(c@, cebk_n(c@))
            &&& total <= 0xFFFF * 0xFFFF
            &&& forall|k: int| 0 <= k < cebk_n(c@) ==> #[trigger] counts@[k] == entry_count(c@, k)
            &&& forall|k: int|
                0 <= k < cebk_n(c@) ==> entry_attr(c@, k) == Some(#[trigger] attrs@[k])
            &&& forall|k: int| 0 <= k < cebk_n(c@) ==> #[trigger] rects@[k] == entry_rect(c@, k)
        },
{
    let ghost cs = c@;
    let clen = c.len();
    let n = read_u16(c, 0).unwrap() as usize;
    let flag = read_u16(c, 2).unwrap();
    let esize: usize = if flag == 1 { 16 } else { 8 };
    let has_rect = flag == 1;
    let start = 24 + n * esize;
    let mut counts: Vec<u16> = Vec::new();
    let mut attrs: Vec<CellAttribute> = Vec::new();
    let mut rects: Vec<Option<BoundingRectangle>> = Vec::new();
    let mut total: u64 = 0;
    let mut i: usize = 0;
    while i < n
        invariant
            cs == c@,
            cs.len() <= usize::MAX,
            n == cebk_n(cs),
            esize == entry_size(cs),
            has_rect == (u16_at(cs, 2) == 1),
            start == oam_start(cs),
            start <= cs.len(),
            i <= n,
            n <= 0xFFFF,
            counts@.len() == i,
            attrs@.len() == i,
            rects@.len() == i,
            total == count_prefix(cs, i as int),
            total <= i * 0xFFFF,
            forall|k: int| 0 <= k < i ==> #[trigger] counts@[k] == entry_count(cs, k),
            forall|k: int| 0 <= k < i ==> entry_attr(cs, k) == Some(#[trigger] attrs@[k]),
            forall|k: int| 0 <= k < i ==> (#[trigger] attrs@[k]).has_bounding_rectangle == has_rect,
            forall|k: int| 0 <= k < i ==> #[trigger] rects@[k] == entry_rect(cs, k),
        decreases n - i,
    {
        let p = 24 + i * esize;
        assert(p + esize <= start) by (nonlinear_arith)
            requires
                p == 24 + i * esize,
                start == 24 + n * esize,
                i < n,
        ;
        assert(p == entry_pos(cs, i as int));
        let count = read_u16(c, p).unwrap();
        let attr = match CellAttribute::from_u16(read_u16(c, p + 2).unwrap()) {
            Some(a) => a,
            None => {
                assert(entry_attr(cs, i as int) is None);
                return Err(NtrError::Malformed);
            },
        };
        assert(entry_attr(cs, i as int) == Some(attr));
        if attr.has_bounding_rectangle != has_rect {
            return Err(NtrError::Malformed);
        }
        let rect = if has_rect {
            Some(
                BoundingRectangle {
                    max_x: read_i16(c, p + 8).unwrap(),
                    max_y: read_i16(c, p + 10).unwrap(),
                    min_x: read_i16(c, p + 12).unwrap(),
                    min_y: read_i16(c, p + 14).unwrap(),
                },
            )
        } else {
            None
        };
        counts.push(count);
        attrs.push(attr);
        rects.push(rect);
        assert(rects@[i as int] == entry_rect(cs, i as int));
        total = total + count as u64;
        assert(total == count_prefix(cs, i + 1));
        i = i + 1;
    }
    assert forall|k: int| 0 <= k < cebk_n(cs) implies (#[trigger] entry_attr(cs, k)) is Some
        && entry_attr(cs, k).unwrap().has_bounding_rectangle == (u16_at(cs, 2) == 1) by {
        assert(entry_attr(cs, k) == Some(attrs@[k]));
    }
    Ok((counts, attrs, rects, total))
}

/// Reads the sprite records of cell `i`, which start at `pos`.
fn read_cell_oams(c: &[u8], i: usize, count: usize, pos: usize) -> (r: Result<Vec<OamData>, NtrError>)
    requires
        cebk_header_ok(c@),
        0 <= i < cebk_n(c@),
        count == entry_count(c@, i as int),
        pos == oam_pos(c@, i as int, 0),
        after_oams(c@) <= c@.len(),
    ensures
        r is Ok <==> forall|j: int| 0 <= j < count ==> (#[trigger] entry_oam(c@, i as int, j)) is Some,
        r matches Ok(os) ==> os@.len() == count && forall|j: int|
            0 <= j < count ==> Some(#[trigger] os@[j]) == entry_oam(c@, i as int, j),
{
    let ghost cs = c@;
    let clen = c.len();
    let ghost t = count_prefix(cs, cebk_n(cs));
    proof {
        lemma_count_prefix_mono(cs, i + 1, cebk_n(cs));
        lemma_count_prefix_mono(cs, 0, i as int);
        assert(count_prefix(cs, i + 1) == count_prefix(cs, i as int) + count);
        assert(oam_start(cs) + 6 * t <= after_oams(cs));
    }
    let mut oams: Vec<OamData> = Vec::new();
    let mut p = pos;
    let mut j: usize = 0;
    while j < count
        invariant
            cs == c@,
            cs.len() <= usize::MAX,
            count == entry_count(cs, i as int),
            count_prefix(cs, i as int) + count <= t,
            count_prefix(cs, i as int) >= 0,
            oam_start(cs) + 6 * t <= cs.len(),
            j <= count,
            p == oam_pos(cs, i as int, j as int),
            oams@.len() == j,
            forall|k: int| 0 <= k < j ==> Some(#[trigger] oams@[k]) == entry_oam(cs, i as int, k),
        decreases count - j,
    {
        let a0 = read_u16(c, p).unwrap();
        let a1 = read_u16(c, p + 2).unwrap();
        let a2 = read_u16(c, p + 4).unwrap();
        let o = match OamData::from_words(a0, a1, a2) {
            Some(o) => o,
            None => {
                assert(entry_oam(cs, i as int, j as int) is None);
                return Err(NtrError::Unsupported);
            },
        };
        oams.push(o);
        p = p + 6;
        j = j + 1;
    }
    assert forall|q: int| 0 <= q < count implies (#[trigger] entry_oam(cs, i as int, q)) is Some by {
        assert(Some(oams@[q]) == entry_oam(cs, i as int, q));
    }
    Ok(oams)
}

impl Ncer {
    /// Reads a cell-bank block (tag `KBEC`): the cells, the mapping mode, the
    /// VRAM table if its offset is not 0, and whether a user-extended table is
    /// there. The per-cell record offsets are not read.
    #[verifier::rlimit(50)]
    pub fn from_cebk_block(block: &NtrFileBlock) -> (r: Result<
        (Vec<Cell>, NtrMappingType, Option<VramData>, bool),
        NtrError,
    >)
        ensures
            r is Ok <==> block.id@ == seq![0x4Bu8, 0x42, 0x45, 0x43] && cebk_valid(
                block.contents@,
            ),
            r matches Ok((cells, mt, vram, ux)) ==> {
                let c = block.contents@;
                &&& cell_views(cells@) == cebk_cells(c)
                &&& mt.ncer_code() == u32_at(c, 8)
                &&& (vram is Some <==> u32_at(c, 12) != 0)
                &&& (vram matches Some(v) ==> v.max_size == u32_at(c, after_oams(c)) && v.data@
                    == cebk_vram_pairs(c))
                &&& ux == (u32_at(c, 20) != 0)
            },
    {
        if !tag_is(&block.id, 0x4B, 0x42, 0x45, 0x43) {
            return Err(NtrError::Malformed);
        }
        let c = block.contents.as_slice();
        let ghost cs = c@;
        if c.len() < 24 {
            return Err(NtrError::Malformed);
        }
        let n = read_u16(c, 0).unwrap() as usize;
        let flag = read_u16(c, 2).unwrap();
        if n == 0 || flag > 1 || read_u32(c, 4).unwrap() != 0x18 {
            return Err(NtrError::Malformed);
        }
        let mapping_type = match NtrMappingType::from_u32_ncer(read_u32(c, 8).unwrap()) {
            Some(m) => m,
            None => {
                return Err(NtrError::Unsupported);
            },
        };
        let vram_offset = read_u32(c, 12).unwrap();
        if read_u32(c, 16).unwrap() != 0 {
            return Err(NtrError::Malformed);
        }
        let uext_offset = read_u32(c, 20).unwrap();
        let esize: usize = if flag == 1 { 16 } else { 8 };
        let start = 24 + n * esize;
        if start > c.len() {
            return Err(NtrError::Malformed);
        }
        assert(cebk_header_ok(cs));
        let (counts, attrs, rects, total) = match read_cell_table(c) {
            Ok(v) => v,
            Err(e) => {
                return Err(e);
            },
        };
        let t = total;
        let end: u64 = start as u64 + 6 * t + if t % 2 == 1 { 2 } else { 0 };
        assert(end == after_oams(cs));
        if end > c.len() as u64 {
            return Err(NtrError::Malformed);
        }
        let mut cells: Vec<Cell> = Vec::new();
        let mut pos: usize = start;
        let mut i: usize = 0;
        while i < n
            invariant
                cs == c@,
                cs == block.contents@,
                cs.len() <= usize::MAX,
                cebk_header_ok(cs),
                n == cebk_n(cs),
                start == oam_start(cs),
                end == after_oams(cs),
                end <= cs.len(),
                t == count_prefix(cs, n as int),
                i <= n,
                counts@.len() == n,
                attrs@.len() == n,
                rects@.len() == n,
                forall|k: int| 0 <= k < n ==> #[trigger] counts@[k] == entry_count(cs, k),
                forall|k: int| 0 <= k < n ==> entry_attr(cs, k) == Some(#[trigger] attrs@[k]),
                forall|k: int| 0 <= k < n ==> #[trigger] rects@[k] == entry_rect(cs, k),
                pos == oam_pos(cs, i as int, 0),
                cells@.len() == i,
                forall|k: int| 0 <= k < i ==> #[trigger] cells@[k]@ == cebk_cells(cs)[k],
                forall|k: int, j: int|
                    0 <= k < i && 0 <= j < entry_count(cs, k) ==> (#[trigger] entry_oam(
                        cs,
                        k,
                        j,
                    )) is Some,
            decreases n - i,
        {
            let count = counts[i] as usize;
            let oams = match read_cell_oams(c, i, count, pos) {
                Ok(os) => os,
                Err(e) => {
                    assert(!cebk_oams_ok(cs));
                    return Err(e);
                },
            };
            proof {
                lemma_count_prefix_mono(cs, i + 1, n as int);
                lemma_count_prefix_mono(cs, 0, i as int);
                assert(count_prefix(cs, i + 1) == count_prefix(cs, i as int) + count);
            }
            let cell = Cell { attribute: attrs[i], oam_data: oams, bounding_rectangle: rects[i] };
            assert(cell@.oam =~= cebk_cells(cs)[i as int].oam);
            cells.push(cell);
            pos = pos + 6 * count;
            i = i + 1;
        }
        assert(cell_views(cells@) =~= cebk_cells(cs));
        assert(cebk_oams_ok(cs));
        let pos: usize = end as usize;
        let vram_data = if vram_offset == 0 {
            None
        } else {
            match read_vram(c, pos) {
                Ok(v) => Some(v),
                Err(e) => {
                    assert(!cebk_vram_ok(cs));
                    return Err(e);
                },
            }
        };
        if uext_offset != 0 {
            let av: usize = if vram_offset == 0 { pos } else { pos + 8 + 8 * n };
            assert(av == after_vram(cs));
            if (c.len() - av) < 16 + 8 * n || 16 + 8 * n > 0xFFFF {
                return Err(NtrError::Malformed);
            }
            if !uext_matches(c, av, n) {
                return Err(NtrError::Malformed);
            }
        }
        Ok((cells, mapping_type, vram_data, uext_offset != 0))
    }
}

/// Reads the VRAM table that starts at `pos`.
fn read_vram(c: &[u8], pos: usize) -> (r: Result<VramData, NtrError>)
    requires
        cebk_header_ok(c@),
        pos == after_oams(c@),
        pos <= c@.len(),
        u32_at(c@, 12) != 0,
    ensures
        r is Ok <==> cebk_vram_ok(c@),
        r matches Ok(v) ==> v.max_size == u32_at(c@, after_oams(c@)) && v.data@ == cebk_vram_pairs(c@),
{
    let ghost cs = c@;
    let clen = c.len();
    let n = read_u16(c, 0).unwrap() as usize;
    if (c.len() - pos) / 8 < n + 1 {
        return Err(NtrError::Malformed);
    }
    let max_size = read_u32(c, pos).unwrap();
    if read_u32(c, pos + 4).unwrap() != 8 {
        return Err(NtrError::Malformed);
    }
    let mut data: Vec<CellVramTransferData> = Vec::new();
    let mut k: usize = 0;
    while k < n
        invariant
            cs == c@,
            cs.len() <= usize::MAX,
            n == cebk_n(cs),
            pos == after_oams(cs),
            pos + 8 + 8 * n <= cs.len(),
            k <= n,
            data@ == cebk_vram_pairs(cs).take(k as int),
        decreases n - k,
    {
        let src_offset = read_u32(c, pos + 8 + 8 * k).unwrap();
        let size = read_u32(c, pos + 12 + 8 * k).unwrap();
        data.push(CellVramTransferData { src_offset, size });
        k = k + 1;
        assert(data@ =~= cebk_vram_pairs(cs).take(k as int));
    }
    assert(cebk_vram_pairs(cs).take(n as int) =~= cebk_vram_pairs(cs));
    Ok(VramData { max_size, data })
}

/// Whether the bytes at `pos` are the user-extended table of `n` cells.
fn uext_matches(c: &[u8], pos: usize, n: usize) -> (r: bool)
    requires
        pos + 16 + 8 * n <= c@.len(),
        16 + 8 * n <= 0xFFFF,
    ensures
        r == (c@.subrange(pos as int, pos + 16 + 8 * n) == uext_bytes(n as int)),
{
    let ghost cs = c@;
    let clen = c.len();
    let expected = uext_table(n);
    let mut k: usize = 0;
    while k < 16 + 8 * n
        invariant
            cs == c@,
            cs.len() <= usize::MAX,
            pos + 16 + 8 * n <= cs.len(),
            16 + 8 * n <= 0xFFFF,
            expected@ == uext_bytes(n as int),
            expected@.len() == 16 + 8 * n,
            k <= 16 + 8 * n,
            forall|q: int| 0 <= q < k ==> cs[pos + q] == #[trigger] expected@[q],
        decreases 16 + 8 * n - k,
    {
        if c[pos + k] != expected[k] {
            assert(cs.subrange(pos as int, pos + 16 + 8 * n)[k as int] != uext_bytes(
                n as int,
            )[k as int]);
            return false;
        }
        k = k + 1;
    }
    assert(cs.subrange(pos as int, pos + 16 + 8 * n) =~= uext_bytes(n as int));
    true
}

/// The user-extended attribute table of `n` cells.
fn uext_table(n: usize) -> (r: Vec<u8>)
    requires
        16 + 8 * n <= 0xFFFF,
    ensures
        r@ == uext_bytes(n as int),
        r@.len() == 16 + 8 * n,
{
    let nn = n as u16;
    let mut v: Vec<u8> = Vec::new();
    push_all(&mut v, &[0x54u8, 0x41, 0x43, 0x55]);
    push_u32(&mut v, (16 + nn * 8) as u32);
    push_u16(&mut v, nn);
    push_u16(&mut v, 1);
    push_u32(&mut v, 8);
    let ghost head = v@;
    let mut k: u16 = 0;
    while k < nn
        invariant
            k <= nn,
            16 + 8 * nn <= 0xFFFF,
            v@ == head + uext_index_bytes(nn as int, k as int),
            v@.len() == 16 + 4 * k,
        decreases nn - k,
    {
        push_u32(&mut v, (8 + 4 * (nn + k)) as u32);
        k = k + 1;
        assert(v@ =~= head + uext_index_bytes(nn as int, k as int));
    }
    let ghost head2 = v@;
    let mut k: u16 = 0;
    while k < nn
        invariant
            k <= nn,
            16 + 8 * nn <= 0xFFFF,
            v@ == head2 + zero_words(k as int),
            head2.len() == 16 + 4 * nn,
        decreases nn - k,
    {
        push_u32(&mut v, 0);
        k = k + 1;
        assert(v@ =~= head2 + zero_words(k as int));
    }
    assert(v@ =~= uext_bytes(n as int));
    v
}

/// Whether a container holds a cell bank: tag `RECN` and exactly three
/// blocks, the cell bank (`KBEC`), the labels (`LBAL`) and a user-extension
/// block (`TXEU`) of four zero bytes.
pub open spec fn ncer_file_ok(f: NtrFileView) -> bool {
    &&& f.id == seq![0x52u8, 0x45, 0x43, 0x4E]
    &&& f.blocks.len() == 3
    &&& f.blocks[0].id == seq![0x4Bu8, 0x42, 0x45, 0x43]
    &&& cebk_valid(f.blocks[0].contents)
    &&& f.blocks[1].id == seq![0x4Cu8, 0x42, 0x41, 0x4C]
    &&& labels_of(f.blocks[1].contents) is Some
    &&& f.blocks[2].id == seq![0x54u8, 0x58, 0x45, 0x55]
    &&& f.blocks[2].contents == seq![0u8, 0, 0, 0]
}

/// Whether a cell bank holds what a container holds.
pub open spec fn ncer_read_from(f: NtrFileView, b: &Ncer) -> bool {
    let c = f.blocks[0].contents;
    &&& b.version == f.version
    &&& cell_views(b.cells@) == cebk_cells(c)
    &&& b.mapping_type.ncer_code() == u32_at(c, 8)
    &&& (b.vram_view() is Some <==> u32_at(c, 12) != 0)
    &&& (b.vram_view() matches Some((m, ds)) ==> m == u32_at(c, after_oams(c)) && ds
        == cebk_vram_pairs(c))
    &&& b.has_user_extended_attribute_data == (u32_at(c, 20) != 0)
    &&& labels_of(f.blocks[1].contents) == Some(label_views(b.labels@))
}

/// Whether a cell bank fits its blocks' fields.
pub open spec fn ncer_writable(n: &Ncer) -> bool {
    cebk_encodable(cell_views(n.cells@), n.vram_view(), n.has_user_extended_attribute_data)
        && labels_size(label_views(n.labels@)) <= U32_MAX
}

/// The container a cell bank is written as.
pub open spec fn ncer_file_view(n: &Ncer) -> NtrFileView {
    NtrFileView {
        id: seq![0x52u8, 0x45, 0x43, 0x4E],
        version: n.version,
        blocks: seq![
            BlockView {
                id: seq![0x4Bu8, 0x42, 0x45, 0x43],
                contents: cebk_bytes(
                    cell_views(n.cells@),
                    n.mapping_type,
                    n.vram_view(),
                    n.has_user_extended_attribute_data,
                ),
            },
            BlockView {
                id: seq![0x4Cu8, 0x42, 0x41, 0x4C],
                contents: labl_bytes(label_views(n.labels@)),
            },
            BlockView { id: seq![0x54u8, 0x58, 0x45, 0x55], contents: seq![0u8, 0, 0, 0] },
        ],
    }
}

impl Ncer {
    /// The fixed user-extension block (tag `TXEU`): four zero bytes.
    pub fn to_uext_block(&self) -> (r: NtrFileBlock)
        ensures
            r.id@ == seq![0x54u8, 0x58, 0x45, 0x55],
            r.contents@ == seq![0u8, 0, 0, 0],
    {
        let mut c: Vec<u8> = Vec::new();
        push_u32(&mut c, 0);
        assert(c@ =~= seq![0u8, 0, 0, 0]);
        NtrFileBlock { id: [0x54, 0x58, 0x45, 0x55], contents: c }
    }

    /// The container (tag `RECN`): the cell-bank block, the label block and the
    /// user-extension block, in that order.
    pub fn write_to_ntr_file(&self) -> (r: Result<NtrFile, NtrError>)
        ensures
            r is Ok <==> ncer_writable(self),
            r matches Ok(f) ==> f@ == ncer_file_view(self),
    {
        let cebk = match self.to_cebk_block() {
            Ok(b) => b,
            Err(e) => {
                return Err(e);
            },
        };
        let labl = match NtrFile::write_labl_block(self.labels.as_slice()) {
            Ok(b) => b,
            Err(e) => {
                return Err(e);
            },
        };
        let uext = self.to_uext_block();
        let mut blocks: Vec<NtrFileBlock> = Vec::new();
        blocks.push(cebk);
        blocks.push(labl);
        blocks.push(uext);
        let f = NtrFile { id: [0x52, 0x45, 0x43, 0x4E], version: self.version, blocks };
        assert(f@.blocks[0] == f.blocks@[0]@);
        assert(f@.blocks[1] == f.blocks@[1]@);
        assert(f@.blocks[2] == f.blocks@[2]@);
        assert(f@.blocks =~= ncer_file_view(self).blocks);
        assert(f@.id =~= ncer_file_view(self).id);
        Ok(f)
    }

    /// Reads a cell bank from a container: tag `RECN` and exactly three blocks,
    /// the cell bank, the labels and a user-extension block of four zero bytes.
    pub fn read_from_ntr_file(file: &NtrFile) -> (r: Result<Ncer, NtrError>)
        ensures
            r is Ok <==> ncer_file_ok(file@),
            r matches Ok(b) ==> ncer_read_from(file@, &b),
    {
        if !tag_is(&file.id, 0x52, 0x45, 0x43, 0x4E) || file.blocks.len() != 3 {
            return Err(NtrError::Malformed);
        }
        assert(file@.blocks[0] == file.blocks@[0]@);
        assert(file@.blocks[1] == file.blocks@[1]@);
        assert(file@.blocks[2] == file.blocks@[2]@);
        let (cells, mapping_type, vram_data, has_uext) = match Ncer::from_cebk_block(
            &file.blocks[0],
        ) {
            Ok(v) => v,
            Err(e) => {
                return Err(e);
            },
        };
        let labels = match NtrFile::read_labl_block(&file.blocks[1]) {
            Ok(l) => l,
            Err(e) => {
                return Err(e);
            },
        };
        let u = &file.blocks[2];
        if !tag_is(&u.id, 0x54, 0x58, 0x45, 0x55) || u.contents.len() != 4 || u.contents[0] != 0
            || u.contents[1] != 0 || u.contents[2] != 0 || u.contents[3] != 0 {
            proof {
                if u.contents@.len() == 4 && u.contents@ == seq![0u8, 0, 0, 0] {
                    assert(u.contents@[0] == 0 && u.contents@[1] == 0 && u.contents@[2] == 0
                        && u.contents@[3] == 0);
                }
            }
            return Err(NtrError::Malformed);
        }
        assert(u.contents@ =~= seq![0u8, 0, 0, 0]);
        Ok(
            Ncer {
                version: file.version,
                cells,
                mapping_type,
                vram_data,
                has_user_extended_attribute_data: has_uext,
                labels,
            },
        )
    }

    /// Decodes a cell bank from the bytes of a container.
    pub fn read_from_data(data: &[u8]) -> (r: Result<Ncer, NtrError>)
        ensures
            r is Ok <==> (parse_file(data@) matches Some(f) && ncer_file_ok(f)),
            r matches Ok(b) ==> ncer_read_from(parse_file(data@).unwrap(), &b),
    {
        match NtrFile::read_from_data(data) {
            Ok(f) => Ncer::read_from_ntr_file(&f),
            Err(e) => Err(e),
        }
    }

    /// Encodes the cell bank as the bytes of a container.
    pub fn write_to_data(&self) -> (r: Result<Vec<u8>, NtrError>)
        ensures
            r is Ok <==> ncer_writable(self) && encodable(ncer_file_view(self)),
            r matches Ok(v) ==> v@ == file_bytes(ncer_file_view(self)),
    {
        match self.write_to_ntr_file() {
            Ok(f) => f.write_to_data(),
            Err(e) => Err(e),
        }
    }
}

impl NtrFormat for Ncer {
    fn read_from_ntr_file(file: &NtrFile) -> Result<Ncer, NtrError> {
        Ncer::read_from_ntr_file(file)
    }

    fn write_to_ntr_file(&self) -> Result<NtrFile, NtrError> {
        Ncer::write_to_ntr_file(self)
    }
}

proof fn lemma_oam_bytes_fields(o: OamData)
    ensures
        oam_bytes(o).len() == 6,
        u16_at(oam_bytes(o), 0) == oam_attr0(o),
        u16_at(oam_bytes(o), 2) == oam_attr1(o),
        u16_at(oam_bytes(o), 4) == oam_attr2(o),
{
    let a = u16_bytes(oam_attr0(o));
    let b = u16_bytes(oam_attr1(o));
    let c = u16_bytes(oam_attr2(o));
    let e = Seq::<u8>::empty();
    assert(oam_bytes(o) =~= e + a + (b + c));
    lemma_u16_at_concat(e, oam_attr0(o), b + c);
    assert(oam_bytes(o) =~= a + b + c);
    lemma_u16_at_concat(a, oam_attr1(o), c);
    assert(oam_bytes(o) =~= (a + b) + c + e);
    lemma_u16_at_concat(a + b, oam_attr2(o), e);
}

proof fn lemma_oams_layout(os: Seq<OamData>, j: int)
    requires
        0 <= j < os.len(),
    ensures
        u16_at(oams_bytes(os), 6 * j) == oam_attr0(os[j]),
        u16_at(oams_bytes(os), 6 * j + 2) == oam_attr1(os[j]),
        u16_at(oams_bytes(os), 6 * j + 4) == oam_attr2(os[j]),
    decreases os.len(),
{
    let init = os.drop_last();
    lemma_oams_len(init);
    lemma_oam_bytes_fields(os.last());
    let ib = oams_bytes(init);
    let lb = oam_bytes(os.last());
    if j < os.len() - 1 {
        lemma_oams_layout(init, j);
        lemma_u16_at_prefix(ib, lb, 6 * j);
        lemma_u16_at_prefix(ib, lb, 6 * j + 2);
        lemma_u16_at_prefix(ib, lb, 6 * j + 4);
    } else {
        lemma_u16_at_suffix(ib, lb, 0);
        lemma_u16_at_suffix(ib, lb, 2);
        lemma_u16_at_suffix(ib, lb, 4);
    }
}

/// The records of cell `i` start `total_oams` of the cells before it records in.
proof fn lemma_cells_oam_layout(cs: Seq<CellView>, i: int, j: int)
    requires
        0 <= i < cs.len(),
        0 <= j < cs[i].oam.len(),
    ensures
        ({
            let p = 6 * (total_oams(cs.take(i)) + j);
            let o = cs[i].oam[j];
            &&& u16_at(cells_oam_bytes(cs), p) == oam_attr0(o)
            &&& u16_at(cells_oam_bytes(cs), p + 2) == oam_attr1(o)
            &&& u16_at(cells_oam_bytes(cs), p + 4) == oam_attr2(o)
        }),
    decreases cs.len(),
{
    let init = cs.drop_last();
    let ib = cells_oam_bytes(init);
    let lb = oams_bytes(cs.last().oam);
    lemma_cells_oam_len(init);
    lemma_cells_oam_len(cs.take(i));
    let p = 6 * (total_oams(cs.take(i)) + j);
    if i < cs.len() - 1 {
        lemma_cells_oam_layout(init, i, j);
        assert(init.take(i) =~= cs.take(i));
        assert(init[i] == cs[i]);
        lemma_total_oams_mono(init, i + 1);
        assert(init.take(i + 1).drop_last() =~= init.take(i));
        lemma_u16_at_prefix(ib, lb, p);
        lemma_u16_at_prefix(ib, lb, p + 2);
        lemma_u16_at_prefix(ib, lb, p + 4);
    } else {
        assert(cs.take(i) =~= init);
        assert(cs.last() == cs[i]);
        lemma_oams_len(cs[i].oam);
        lemma_oams_layout(cs[i].oam, j);
        lemma_u16_at_suffix(ib, lb, 6 * j);
        lemma_u16_at_suffix(ib, lb, 6 * j + 2);
        lemma_u16_at_suffix(ib, lb, 6 * j + 4);
    }
}

/// Whether every cell's table entry is `e` bytes: a box exactly where `e` is 16.
pub open spec fn entries_uniform(cs: Seq<CellView>, e: int) -> bool {
    forall|k: int| 0 <= k < cs.len() ==> ((#[trigger] cs[k]).rect is Some <==> e == 16)
}

proof fn lemma_entry_fields(c: CellView, off: int)
    requires
        c.oam.len() <= 0xFFFF,
    ensures
        cell_entry_bytes(c, off).len() == if c.rect is Some { 16int } else { 8int },
        u16_at(cell_entry_bytes(c, off), 0) == c.oam.len(),
        u16_at(cell_entry_bytes(c, off), 2) == cell_attr_word(c.attribute),
        c.rect matches Some(r) ==> i16_at(cell_entry_bytes(c, off), 8) == r.max_x && i16_at(
            cell_entry_bytes(c, off),
            10,
        ) == r.max_y && i16_at(cell_entry_bytes(c, off), 12) == r.min_x && i16_at(
            cell_entry_bytes(c, off),
            14,
        ) == r.min_y,
{
    let a = u16_bytes(c.oam.len() as u16);
    let b = u16_bytes(cell_attr_word(c.attribute));
    let d = u32_bytes(off as u32);
    let rb = match c.rect {
        Some(r) => rect_bytes(r),
        None => Seq::<u8>::empty(),
    };
    let e = Seq::<u8>::empty();
    assert(cell_entry_bytes(c, off) =~= e + a + (b + d + rb));
    lemma_u16_at_concat(e, c.oam.len() as u16, b + d + rb);
    assert(cell_entry_bytes(c, off) =~= a + b + (d + rb));
    lemma_u16_at_concat(a, cell_attr_word(c.attribute), d + rb);
    if let Some(r) = c.rect {
        let h = a + b + d;
        let x0 = i16_bytes(r.max_x);
        let x1 = i16_bytes(r.max_y);
        let x2 = i16_bytes(r.min_x);
        let x3 = i16_bytes(r.min_y);
        assert(cell_entry_bytes(c, off) =~= h + x0 + (x1 + x2 + x3));
        lemma_i16_at_concat(h, r.max_x, x1 + x2 + x3);
        assert(cell_entry_bytes(c, off) =~= (h + x0) + x1 + (x2 + x3));
        lemma_i16_at_concat(h + x0, r.max_y, x2 + x3);
        assert(cell_entry_bytes(c, off) =~= (h + x0 + x1) + x2 + x3);
        lemma_i16_at_concat(h + x0 + x1, r.min_x, x3);
        assert(cell_entry_bytes(c, off) =~= (h + x0 + x1 + x2) + x3 + e);
        lemma_i16_at_concat(h + x0 + x1 + x2, r.min_y, e);
    }
}

proof fn lemma_entries_size(cs: Seq<CellView>, e: int)
    requires
        entries_uniform(cs, e),
        e == 8 || e == 16,
        forall|k: int| 0 <= k < cs.len() ==> (#[trigger] cs[k]).oam.len() <= 0xFFFF,
    ensures
        cell_entries_bytes(cs).len() == cs.len() * e,
    decreases cs.len(),
{
    if cs.len() > 0 {
        let init = cs.drop_last();
        assert forall|k: int| 0 <= k < init.len() implies ((#[trigger] init[k]).rect is Some
            <==> e == 16) && init[k].oam.len() <= 0xFFFF by {
            assert(init[k] == cs[k]);
        }
        lemma_entries_size(init, e);
        lemma_entry_fields(cs.last(), 6 * total_oams(init));
        assert(cs.last() == cs[cs.len() - 1]);
        assert(init.len() * e + e == cs.len() * e) by (nonlinear_arith)
            requires
                init.len() + 1 == cs.len(),
        ;
    }
}

proof fn lemma_entries_layout(cs: Seq<CellView>, e: int, i: int)
    requires
        entries_uniform(cs, e),
        e == 8 || e == 16,
        forall|k: int| 0 <= k < cs.len() ==> (#[trigger] cs[k]).oam.len() <= 0xFFFF,
        0 <= i < cs.len(),
    ensures
        ({
            let b = cell_entries_bytes(cs);
            &&& u16_at(b, i * e) == cs[i].oam.len()
            &&& u16_at(b, i * e + 2) == cell_attr_word(cs[i].attribute)
            &&& (cs[i].rect matches Some(r) ==> i16_at(b, i * e + 8) == r.max_x && i16_at(
                b,
                i * e + 10,
            ) == r.max_y && i16_at(b, i * e + 12) == r.min_x && i16_at(b, i * e + 14) == r.min_y)
        }),
    decreases cs.len(),
{
    let init = cs.drop_last();
    assert forall|k: int| 0 <= k < init.len() implies ((#[trigger] init[k]).rect is Some <==> e
        == 16) && init[k].oam.len() <= 0xFFFF by {
        assert(init[k] == cs[k]);
    }
    lemma_entries_size(init, e);
    let ib = cell_entries_bytes(init);
    let off = 6 * total_oams(init);
    let lb = cell_entry_bytes(cs.last(), off);
    lemma_entry_fields(cs.last(), off);
    assert(cs.last() == cs[cs.len() - 1]);
    assert(cell_entries_bytes(cs) == ib + lb);
    if i < cs.len() - 1 {
        lemma_entries_layout(init, e, i);
        assert(init[i] == cs[i]);
        assert(i * e + e <= init.len() * e) by (nonlinear_arith)
            requires
                i + 1 <= init.len(),
                e > 0,
        ;
        lemma_u16_at_prefix(ib, lb, i * e);
        lemma_u16_at_prefix(ib, lb, i * e + 2);
        if e == 16 {
            lemma_u16_at_prefix(ib, lb, i * e + 8);
            lemma_u16_at_prefix(ib, lb, i * e + 10);
            lemma_u16_at_prefix(ib, lb, i * e + 12);
            lemma_u16_at_prefix(ib, lb, i * e + 14);
        }
    } else {
        assert(i * e == init.len() * e);
        lemma_u16_at_suffix(ib, lb, 0);
        lemma_u16_at_suffix(ib, lb, 2);
        if e == 16 {
            lemma_u16_at_suffix(ib, lb, 8);
            lemma_u16_at_suffix(ib, lb, 10);
            lemma_u16_at_suffix(ib, lb, 12);
            lemma_u16_at_suffix(ib, lb, 14);
        }
    }
}

/// The 24-byte header of a cell-bank payload.
pub open spec fn cebk_header(
    cs: Seq<CellView>,
    mt: NtrMappingType,
    vram: Option<(u32, Seq<CellVramTransferData>)>,
    uext: bool,
) -> Seq<u8> {
    let cd = cell_data_bytes(cs);
    let vd = vram_part(vram);
    u16_bytes(cs.len() as u16) + u16_bytes(bit(cs[0].attribute.has_bounding_rectangle))
        + u32_bytes(0x18) + u32_bytes(mt.ncer_code()) + u32_bytes(
        if vram is Some {
            (0x18 + cd.len()) as u32
        } else {
            0
        },
    ) + u32_bytes(0) + u32_bytes(
        if uext {
            (0x18 + cd.len() + vd.len()) as u32
        } else {
            0
        },
    )
}

#[verifier::rlimit(100)]
proof fn lemma_cebk_header(
    cs: Seq<CellView>,
    mt: NtrMappingType,
    vram: Option<(u32, Seq<CellVramTransferData>)>,
    uext: bool,
)
    ensures
        ({
            let h = cebk_header(cs, mt, vram, uext);
            let cd = cell_data_bytes(cs);
            let vd = vram_part(vram);
            &&& h.len() == 24
            &&& cebk_bytes(cs, mt, vram, uext) == h + cd + vd + if uext {
                uext_bytes(cs.len() as int)
            } else {
                Seq::empty()
            }
            &&& u16_at(h, 0) == cs.len() as u16
            &&& u16_at(h, 2) == bit(cs[0].attribute.has_bounding_rectangle)
            &&& u32_at(h, 4) == 0x18
            &&& u32_at(h, 8) == mt.ncer_code()
            &&& u32_at(h, 12) == if vram is Some {
                (0x18 + cd.len()) as u32
            } else {
                0u32
            }
            &&& u32_at(h, 16) == 0
            &&& u32_at(h, 20) == if uext {
                (0x18 + cd.len() + vd.len()) as u32
            } else {
                0u32
            }
        }),
{
    let cd = cell_data_bytes(cs);
    let vd = vram_part(vram);
    let f0 = u16_bytes(cs.len() as u16);
    let f1 = u16_bytes(bit(cs[0].attribute.has_bounding_rectangle));
    let f2 = u32_bytes(0x18);
    let f3 = u32_bytes(mt.ncer_code());
    let v4: u32 = if vram is Some { (0x18 + cd.len()) as u32 } else { 0 };
    let f4 = u32_bytes(v4);
    let f5 = u32_bytes(0);
    let v6: u32 = if uext { (0x18 + cd.len() + vd.len()) as u32 } else { 0 };
    let f6 = u32_bytes(v6);
    let h = cebk_header(cs, mt, vram, uext);
    let e = Seq::<u8>::empty();
    assert(h =~= e + f0 + (f1 + f2 + f3 + f4 + f5 + f6));
    lemma_u16_at_concat(e, cs.len() as u16, f1 + f2 + f3 + f4 + f5 + f6);
    assert(h =~= f0 + f1 + (f2 + f3 + f4 + f5 + f6));
    lemma_u16_at_concat(f0, bit(cs[0].attribute.has_bounding_rectangle), f2 + f3 + f4 + f5 + f6);
    assert(h =~= (f0 + f1) + f2 + (f3 + f4 + f5 + f6));
    lemma_u32_at_concat(f0 + f1, 0x18, f3 + f4 + f5 + f6);
    assert(h =~= (f0 + f1 + f2) + f3 + (f4 + f5 + f6));
    lemma_u32_at_concat(f0 + f1 + f2, mt.ncer_code(), f4 + f5 + f6);
    assert(h =~= (f0 + f1 + f2 + f3) + f4 + (f5 + f6));
    lemma_u32_at_concat(f0 + f1 + f2 + f3, v4, f5 + f6);
    assert(h =~= (f0 + f1 + f2 + f3 + f4) + f5 + f6);
    lemma_u32_at_concat(f0 + f1 + f2 + f3 + f4, 0, f6);
    assert(h =~= (f0 + f1 + f2 + f3 + f4 + f5) + f6 + e);
    lemma_u32_at_concat(f0 + f1 + f2 + f3 + f4 + f5, v6, e);
}

proof fn lemma_count_prefix_total(c: Seq<u8>, cs: Seq<CellView>, i: int)
    requires
        0 <= i <= cs.len(),
        forall|k: int| 0 <= k < cs.len() ==> entry_count(c, k) == (#[trigger] cs[k]).oam.len(),
    ensures
        count_prefix(c, i) == total_oams(cs.take(i)),
    decreases i,
{
    if i > 0 {
        lemma_count_prefix_total(c, cs, i - 1);
        assert(cs.take(i).drop_last() =~= cs.take(i - 1));
        assert(cs.take(i).last() == cs[i - 1]);
    } else {
        assert(cs.take(0) =~= Seq::<CellView>::empty());
    }
}

proof fn lemma_vram_pairs_layout(ds: Seq<CellVramTransferData>, i: int)
    requires
        0 <= i < ds.len(),
    ensures
        vram_pairs_bytes(ds).len() == 8 * ds.len(),
        u32_at(vram_pairs_bytes(ds), 8 * i) == ds[i].src_offset,
        u32_at(vram_pairs_bytes(ds), 8 * i + 4) == ds[i].size,
    decreases ds.len(),
{
    let init = ds.drop_last();
    let ib = vram_pairs_bytes(init);
    let a = u32_bytes(ds.last().src_offset);
    let b = u32_bytes(ds.last().size);
    if init.len() > 0 {
        lemma_vram_pairs_layout(init, 0);
    }
    assert(vram_pairs_bytes(ds) == ib + a + b);
    if i < ds.len() - 1 {
        lemma_vram_pairs_layout(init, i);
        assert(init[i] == ds[i]);
        lemma_u32_at_prefix(ib, a + b, 8 * i);
        lemma_u32_at_prefix(ib, a + b, 8 * i + 4);
        assert(ib + a + b =~= ib + (a + b));
    } else {
        lemma_u32_at_concat(ib, ds.last().src_offset, b);
        assert(ib + a + b =~= (ib + a) + b + Seq::<u8>::empty());
        lemma_u32_at_concat(ib + a, ds.last().size, Seq::<u8>::empty());
    }
}

proof fn lemma_uext_len(n: int, k: int)
    requires
        0 <= k,
    ensures
        uext_index_bytes(n, k).len() == 4 * k,
    decreases k,
{
    if k > 0 {
        lemma_uext_len(n, k - 1);
    }
}

/// Cells that can be written and read back unchanged: every entry the size
/// that the first cell's flag gives (a box exactly where the flag is set), the
/// same flag on every cell, radii that fit 6 bits, records whose fields fit
/// their widths, and one VRAM transfer per cell.
pub open spec fn cebk_legal(cs: Seq<CellView>, vram: Option<(u32, Seq<CellVramTransferData>)>) -> bool {
    let flag = cs[0].attribute.has_bounding_rectangle;
    &&& entries_uniform(cs, if flag { 16int } else { 8int })
    &&& forall|k: int|
        0 <= k < cs.len() ==> (#[trigger] cs[k]).attribute.has_bounding_rectangle == flag
            && cs[k].attribute.bounding_sphere_radius < 64
    &&& forall|k: int, j: int|
        0 <= k < cs.len() && 0 <= j < cs[k].oam.len() ==> oam_valid(#[trigger] cs[k].oam[j])
    &&& (vram matches Some((_, ds)) ==> ds.len() == cs.len())
}

/// The payload split into its parts: header, cell table, records, padding,
/// VRAM table, user-extended table.
#[verifier::rlimit(100)]
proof fn lemma_cebk_parts(
    cs: Seq<CellView>,
    mt: NtrMappingType,
    vram: Option<(u32, Seq<CellVramTransferData>)>,
    uext: bool,
)
    requires
        cebk_encodable(cs, vram, uext),
        cebk_legal(cs, vram),
    ensures
        ({
            let c = cebk_bytes(cs, mt, vram, uext);
            let h = cebk_header(cs, mt, vram, uext);
            let ent = cell_entries_bytes(cs);
            let oms = cells_oam_bytes(cs);
            let t = total_oams(cs);
            let pad = if t % 2 == 1 { seq![0u8, 0u8] } else { Seq::<u8>::empty() };
            let vd = vram_part(vram);
            let ud = if uext { uext_bytes(cs.len() as int) } else { Seq::<u8>::empty() };
            let e = if cs[0].attribute.has_bounding_rectangle { 16int } else { 8int };
            &&& c == h + (ent + (oms + (pad + (vd + ud))))
            &&& h.len() == 24
            &&& ent.len() == cs.len() * e
            &&& oms.len() == 6 * t
            &&& t >= 0
            &&& cebk_n(c) == cs.len()
            &&& entry_size(c) == e
            &&& oam_start(c) == 24 + cs.len() * e
            &&& u32_at(c, 4) == 0x18
            &&& u32_at(c, 8) == mt.ncer_code()
            &&& u32_at(c, 12) == u32_at(h, 12)
            &&& u32_at(c, 16) == 0
            &&& u32_at(c, 20) == u32_at(h, 20)
            &&& c.len() >= 24
        }),
{
    let c = cebk_bytes(cs, mt, vram, uext);
    let h = cebk_header(cs, mt, vram, uext);
    let ent = cell_entries_bytes(cs);
    let oms = cells_oam_bytes(cs);
    let t = total_oams(cs);
    let pad = if t % 2 == 1 { seq![0u8, 0u8] } else { Seq::<u8>::empty() };
    let vd = vram_part(vram);
    let ud = if uext { uext_bytes(cs.len() as int) } else { Seq::<u8>::empty() };
    let flag = cs[0].attribute.has_bounding_rectangle;
    let e = if flag { 16int } else { 8int };
    lemma_cebk_header(cs, mt, vram, uext);
    lemma_cell_data_padding(cs);
    lemma_entries_size(cs, e);
    lemma_cells_oam_len(cs);
    assert(c =~= h + (ent + (oms + (pad + (vd + ud)))));
    let rest = ent + (oms + (pad + (vd + ud)));
    lemma_u16_at_prefix(h, rest, 0);
    lemma_u16_at_prefix(h, rest, 2);
    lemma_u32_at_prefix(h, rest, 4);
    lemma_u32_at_prefix(h, rest, 8);
    lemma_u32_at_prefix(h, rest, 12);
    lemma_u32_at_prefix(h, rest, 16);
    lemma_u32_at_prefix(h, rest, 20);
}

#[verifier::rlimit(60)]
proof fn lemma_cebk_entry(
    cs: Seq<CellView>,
    mt: NtrMappingType,
    vram: Option<(u32, Seq<CellVramTransferData>)>,
    uext: bool,
    i: int,
)
    requires
        cebk_encodable(cs, vram, uext),
        cebk_legal(cs, vram),
        0 <= i < cs.len(),
    ensures
        ({
            let c = cebk_bytes(cs, mt, vram, uext);
            &&& entry_count(c, i) == cs[i].oam.len()
            &&& entry_attr(c, i) == Some(cs[i].attribute)
            &&& entry_rect(c, i) == cs[i].rect
        }),
{
    let c = cebk_bytes(cs, mt, vram, uext);
    let h = cebk_header(cs, mt, vram, uext);
    let ent = cell_entries_bytes(cs);
    let oms = cells_oam_bytes(cs);
    let t = total_oams(cs);
    let pad = if t % 2 == 1 { seq![0u8, 0u8] } else { Seq::<u8>::empty() };
    let vd = vram_part(vram);
    let ud = if uext { uext_bytes(cs.len() as int) } else { Seq::<u8>::empty() };
    let flag = cs[0].attribute.has_bounding_rectangle;
    let e = if flag { 16int } else { 8int };
    let n = cs.len() as int;
    lemma_cebk_parts(cs, mt, vram, uext);
    lemma_entries_layout(cs, e, i);
    let rest2 = oms + (pad + (vd + ud));
    let rest = ent + rest2;
    assert(i * e + e <= n * e) by (nonlinear_arith)
        requires
            i + 1 <= n,
            e > 0,
    ;
    assert(entry_pos(c, i) == 24 + i * e);
    lemma_u16_at_suffix(h, rest, i * e);
    lemma_u16_at_prefix(ent, rest2, i * e);
    lemma_u16_at_suffix(h, rest, i * e + 2);
    lemma_u16_at_prefix(ent, rest2, i * e + 2);
    lemma_cell_attr_round_trip(cs[i].attribute, 0);
    if flag {
        lemma_u16_at_suffix(h, rest, i * e + 8);
        lemma_u16_at_prefix(ent, rest2, i * e + 8);
        lemma_u16_at_suffix(h, rest, i * e + 10);
        lemma_u16_at_prefix(ent, rest2, i * e + 10);
        lemma_u16_at_suffix(h, rest, i * e + 12);
        lemma_u16_at_prefix(ent, rest2, i * e + 12);
        lemma_u16_at_suffix(h, rest, i * e + 14);
        lemma_u16_at_prefix(ent, rest2, i * e + 14);
        assert(cs[i].rect is Some);
        assert(u16_at(c, 2) == 1);
    } else {
        assert(cs[i].rect is None);
        assert(u16_at(c, 2) != 1);
    }
}

#[verifier::rlimit(60)]
proof fn lemma_cebk_oam(
    cs: Seq<CellView>,
    mt: NtrMappingType,
    vram: Option<(u32, Seq<CellVramTransferData>)>,
    uext: bool,
    i: int,
    j: int,
)
    requires
        cebk_encodable(cs, vram, uext),
        cebk_legal(cs, vram),
        0 <= i < cs.len(),
        0 <= j < cs[i].oam.len(),
        count_prefix(cebk_bytes(cs, mt, vram, uext), i) == total_oams(cs.take(i)),
    ensures
        entry_oam(cebk_bytes(cs, mt, vram, uext), i, j) == Some(cs[i].oam[j]),
{
    let c = cebk_bytes(cs, mt, vram, uext);
    let h = cebk_header(cs, mt, vram, uext);
    let ent = cell_entries_bytes(cs);
    let oms = cells_oam_bytes(cs);
    let t = total_oams(cs);
    let pad = if t % 2 == 1 { seq![0u8, 0u8] } else { Seq::<u8>::empty() };
    let vd = vram_part(vram);
    let ud = if uext { uext_bytes(cs.len() as int) } else { Seq::<u8>::empty() };
    lemma_cebk_parts(cs, mt, vram, uext);
    lemma_cells_oam_layout(cs, i, j);
    lemma_total_oams_mono(cs, i + 1);
    assert(cs.take(i + 1).drop_last() =~= cs.take(i));
    assert(cs.take(i + 1).last() == cs[i]);
    lemma_cells_oam_len(cs.take(i));
    let p = 6 * (total_oams(cs.take(i)) + j);
    let r3 = pad + (vd + ud);
    assert(c =~= (h + ent) + (oms + r3));
    assert(oam_pos(c, i, j) == (h + ent).len() + p);
    lemma_u16_at_suffix(h + ent, oms + r3, p);
    lemma_u16_at_prefix(oms, r3, p);
    lemma_u16_at_suffix(h + ent, oms + r3, p + 2);
    lemma_u16_at_prefix(oms, r3, p + 2);
    lemma_u16_at_suffix(h + ent, oms + r3, p + 4);
    lemma_u16_at_prefix(oms, r3, p + 4);
    lemma_oam_round_trip(cs[i].oam[j]);
}

#[verifier::rlimit(100)]
proof fn lemma_cebk_front(
    cs: Seq<CellView>,
    mt: NtrMappingType,
    vram: Option<(u32, Seq<CellVramTransferData>)>,
    uext: bool,
)
    requires
        cebk_encodable(cs, vram, uext),
        cebk_legal(cs, vram),
    ensures
        ({
            let c = cebk_bytes(cs, mt, vram, uext);
            &&& cebk_header_ok(c)
            &&& cebk_entries_ok(c)
            &&& cebk_oams_ok(c)
            &&& cebk_cells(c) == cs
            &&& after_oams(c) == cebk_header(cs, mt, vram, uext).len() + cell_data_bytes(cs).len()
        }),
{
    let c = cebk_bytes(cs, mt, vram, uext);
    let h = cebk_header(cs, mt, vram, uext);
    let t = total_oams(cs);
    let n = cs.len() as int;
    let flag = cs[0].attribute.has_bounding_rectangle;
    lemma_cebk_parts(cs, mt, vram, uext);
    lemma_cell_data_padding(cs);
    lemma_entries_size(cs, if flag { 16int } else { 8int });
    lemma_cells_oam_len(cs);
    assert(u16_at(c, 2) == 1 <==> flag);
    assert forall|i: int| 0 <= i < n implies entry_count(c, i) == (#[trigger] cs[i]).oam.len()
        && entry_attr(c, i) == Some(cs[i].attribute) && entry_rect(c, i) == cs[i].rect by {
        lemma_cebk_entry(cs, mt, vram, uext, i);
    }
    assert forall|i: int| 0 <= i < n implies (#[trigger] entry_attr(c, i)) is Some && entry_attr(
        c,
        i,
    ).unwrap().has_bounding_rectangle == (u16_at(c, 2) == 1) by {
        assert(entry_attr(c, i) == Some(cs[i].attribute));
    }
    assert(cebk_entries_ok(c));
    assert forall|i: int| 0 <= i <= n implies #[trigger] count_prefix(c, i) == total_oams(
        cs.take(i),
    ) by {
        lemma_count_prefix_total(c, cs, i);
    }
    assert(cs.take(n) =~= cs);
    assert(count_prefix(c, n) == t);
    assert forall|i: int, j: int| 0 <= i < n && 0 <= j < entry_count(c, i) implies (#[trigger] entry_oam(
        c,
        i,
        j,
    )) == Some(cs[i].oam[j]) by {
        lemma_cebk_oam(cs, mt, vram, uext, i, j);
    }
    assert(cebk_oams_ok(c));
    assert(cebk_cells(c) =~= cs) by {
        assert forall|i: int| 0 <= i < n implies #[trigger] cebk_cells(c)[i] == cs[i] by {
            assert(cebk_cells(c)[i].oam =~= cs[i].oam);
        }
    }
}

#[verifier::rlimit(60)]
proof fn lemma_cebk_offsets(
    cs: Seq<CellView>,
    mt: NtrMappingType,
    vram: Option<(u32, Seq<CellVramTransferData>)>,
    uext: bool,
)
    requires
        cebk_encodable(cs, vram, uext),
        cebk_legal(cs, vram),
    ensures
        ({
            let c = cebk_bytes(cs, mt, vram, uext);
            &&& (u32_at(c, 12) != 0) == vram is Some
            &&& (u32_at(c, 20) != 0) == uext
            &&& c == (cebk_header(cs, mt, vram, uext) + cell_data_bytes(cs)) + (vram_part(vram)
                + if uext {
                uext_bytes(cs.len() as int)
            } else {
                Seq::empty()
            })
            &&& (vram matches Some((m, ds)) ==> vram_part(vram).len() == 8 + 8 * cs.len())
        }),
{
    lemma_cebk_parts(cs, mt, vram, uext);
    lemma_cebk_header(cs, mt, vram, uext);
    let c = cebk_bytes(cs, mt, vram, uext);
    let h = cebk_header(cs, mt, vram, uext);
    let cd = cell_data_bytes(cs);
    let vd = vram_part(vram);
    let ud = if uext { uext_bytes(cs.len() as int) } else { Seq::<u8>::empty() };
    assert(c =~= (h + cd) + (vd + ud));
    if let Some((m, ds)) = vram {
        if ds.len() > 0 {
            lemma_vram_pairs_layout(ds, 0);
        } else {
            assert(vram_pairs_bytes(ds) =~= Seq::<u8>::empty());
        }
    }
}

#[verifier::rlimit(60)]
proof fn lemma_cebk_vram_pair(
    cs: Seq<CellView>,
    mt: NtrMappingType,
    m: u32,
    ds: Seq<CellVramTransferData>,
    uext: bool,
    i: int,
)
    requires
        cebk_encodable(cs, Some((m, ds)), uext),
        cebk_legal(cs, Some((m, ds))),
        after_oams(cebk_bytes(cs, mt, Some((m, ds)), uext)) == cebk_header(
            cs,
            mt,
            Some((m, ds)),
            uext,
        ).len() + cell_data_bytes(cs).len(),
        0 <= i < ds.len(),
    ensures
        cebk_vram_pairs(cebk_bytes(cs, mt, Some((m, ds)), uext))[i] == ds[i],
{
    let vram = Some((m, ds));
    lemma_cebk_offsets(cs, mt, vram, uext);
    let c = cebk_bytes(cs, mt, vram, uext);
    let x = cebk_header(cs, mt, vram, uext) + cell_data_bytes(cs);
    let vd = vram_part(vram);
    let ud = if uext { uext_bytes(cs.len() as int) } else { Seq::<u8>::empty() };
    let pairs = vram_pairs_bytes(ds);
    let hd = u32_bytes(m) + u32_bytes(8);
    assert(vd == hd + pairs);
    lemma_vram_pairs_layout(ds, i);
    lemma_u32_at_suffix(x, vd + ud, 8 + 8 * i);
    lemma_u32_at_prefix(vd, ud, 8 + 8 * i);
    lemma_u32_at_suffix(hd, pairs, 8 * i);
    lemma_u32_at_suffix(x, vd + ud, 12 + 8 * i);
    lemma_u32_at_prefix(vd, ud, 12 + 8 * i);
    lemma_u32_at_suffix(hd, pairs, 8 * i + 4);
}

#[verifier::rlimit(60)]
proof fn lemma_cebk_vram(
    cs: Seq<CellView>,
    mt: NtrMappingType,
    vram: Option<(u32, Seq<CellVramTransferData>)>,
    uext: bool,
)
    requires
        cebk_encodable(cs, vram, uext),
        cebk_legal(cs, vram),
        after_oams(cebk_bytes(cs, mt, vram, uext)) == cebk_header(cs, mt, vram, uext).len()
            + cell_data_bytes(cs).len(),
    ensures
        ({
            let c = cebk_bytes(cs, mt, vram, uext);
            &&& cebk_vram_ok(c)
            &&& (vram matches Some((m, ds)) ==> u32_at(c, after_oams(c)) == m && cebk_vram_pairs(c)
                == ds)
            &&& after_vram(c) == after_oams(c) + vram_part(vram).len()
        }),
{
    lemma_cebk_offsets(cs, mt, vram, uext);
    lemma_cebk_parts(cs, mt, vram, uext);
    let c = cebk_bytes(cs, mt, vram, uext);
    let x = cebk_header(cs, mt, vram, uext) + cell_data_bytes(cs);
    let vd = vram_part(vram);
    let ud = if uext { uext_bytes(cs.len() as int) } else { Seq::<u8>::empty() };
    if let Some((m, ds)) = vram {
        let pairs = vram_pairs_bytes(ds);
        let e = Seq::<u8>::empty();
        lemma_u32_at_suffix(x, vd + ud, 0);
        lemma_u32_at_prefix(vd, ud, 0);
        assert(vd =~= e + u32_bytes(m) + (u32_bytes(8) + pairs));
        lemma_u32_at_concat(e, m, u32_bytes(8) + pairs);
        lemma_u32_at_suffix(x, vd + ud, 4);
        lemma_u32_at_prefix(vd, ud, 4);
        assert(vd =~= u32_bytes(m) + u32_bytes(8) + pairs);
        lemma_u32_at_concat(u32_bytes(m), 8, pairs);
        assert forall|i: int| 0 <= i < cs.len() implies #[trigger] cebk_vram_pairs(c)[i] == ds[i] by {
            lemma_cebk_vram_pair(cs, mt, m, ds, uext, i);
        }
        assert(cebk_vram_pairs(c) =~= ds);
    } else {
        assert(vd =~= Seq::<u8>::empty());
    }
}

#[verifier::rlimit(60)]
proof fn lemma_cebk_uext(
    cs: Seq<CellView>,
    mt: NtrMappingType,
    vram: Option<(u32, Seq<CellVramTransferData>)>,
    uext: bool,
)
    requires
        cebk_encodable(cs, vram, uext),
        cebk_legal(cs, vram),
        after_vram(cebk_bytes(cs, mt, vram, uext)) == cebk_header(cs, mt, vram, uext).len()
            + cell_data_bytes(cs).len() + vram_part(vram).len(),
    ensures
        cebk_uext_ok(cebk_bytes(cs, mt, vram, uext)),
{
    lemma_cebk_offsets(cs, mt, vram, uext);
    lemma_cebk_parts(cs, mt, vram, uext);
    let c = cebk_bytes(cs, mt, vram, uext);
    let x = cebk_header(cs, mt, vram, uext) + cell_data_bytes(cs);
    let vd = vram_part(vram);
    let n = cs.len() as int;
    if uext {
        let ud = uext_bytes(n);
        lemma_uext_len(n, n);
        assert(ud.len() == 16 + 8 * n);
        assert(c =~= (x + vd) + ud);
        assert(c.subrange(after_vram(c), after_vram(c) + 16 + 8 * n) =~= ud);
    }
}

/// Reading a legal cell-bank payload back gives its cells, mapping mode, VRAM
/// table and user-extended flag.
pub proof fn lemma_cebk_round_trip(
    cs: Seq<CellView>,
    mt: NtrMappingType,
    vram: Option<(u32, Seq<CellVramTransferData>)>,
    uext: bool,
)
    requires
        cebk_encodable(cs, vram, uext),
        cebk_legal(cs, vram),
    ensures
        ({
            let c = cebk_bytes(cs, mt, vram, uext);
            &&& cebk_valid(c)
            &&& cebk_cells(c) == cs
            &&& u32_at(c, 8) == mt.ncer_code()
            &&& (u32_at(c, 12) != 0) == vram is Some
            &&& (vram matches Some((m, ds)) ==> u32_at(c, after_oams(c)) == m && cebk_vram_pairs(c)
                == ds)
            &&& (u32_at(c, 20) != 0) == uext
        }),
{
    lemma_cebk_parts(cs, mt, vram, uext);
    lemma_cebk_front(cs, mt, vram, uext);
    lemma_cebk_offsets(cs, mt, vram, uext);
    lemma_cebk_vram(cs, mt, vram, uext);
    lemma_cebk_uext(cs, mt, vram, uext);
}

/// A cell bank that can be written and read back unchanged: it fits the
/// fields, its cells are legal (see `cebk_legal`), and its labels survive the
/// label count scan.
pub open spec fn ncer_legal(n: &Ncer) -> bool {
    &&& ncer_writable(n)
    &&& cebk_legal(cell_views(n.cells@), n.vram_view())
    &&& labels_of(labl_bytes(label_views(n.labels@))) == Some(label_views(n.labels@))
}

proof fn lemma_ncer_code(a: NtrMappingType, b: NtrMappingType)
    requires
        a.ncer_code() == b.ncer_code(),
    ensures
        a == b,
{
}

/// Writing a legal cell bank to bytes and reading the bytes back gives the
/// same bank: revision, cells, mapping mode, VRAM table, user-extended flag
/// and labels.
pub proof fn lemma_ncer_file_round_trip(n: &Ncer)
    requires
        ncer_legal(n),
        encodable(ncer_file_view(n)),
    ensures
        parse_file(file_bytes(ncer_file_view(n))) == Some(ncer_file_view(n)),
        ncer_file_ok(ncer_file_view(n)),
        forall|b: Ncer|
            ncer_read_from(ncer_file_view(n), &b) ==> b.version == n.version && cell_views(b.cells@)
                == cell_views(n.cells@) && b.mapping_type == n.mapping_type && b.vram_view()
                == n.vram_view() && b.has_user_extended_attribute_data
                == n.has_user_extended_attribute_data && label_views(b.labels@) == label_views(
                n.labels@,
            ),
{
    let v = ncer_file_view(n);
    assert(v.blocks[0].id.len() == 4);
    assert(v.blocks[1].id.len() == 4);
    assert(v.blocks[2].id.len() == 4);
    lemma_container_round_trip(v);
    lemma_cebk_round_trip(
        cell_views(n.cells@),
        n.mapping_type,
        n.vram_view(),
        n.has_user_extended_attribute_data,
    );
    assert forall|b: Ncer| ncer_read_from(v, &b) implies b.version == n.version && cell_views(
        b.cells@,
    ) == cell_views(n.cells@) && b.mapping_type == n.mapping_type && b.vram_view()
        == n.vram_view() && b.has_user_extended_attribute_data
        == n.has_user_extended_attribute_data && label_views(b.labels@) == label_views(
        n.labels@,
    ) by {
        lemma_ncer_code(b.mapping_type, n.mapping_type);
    }
}

} // verus!
