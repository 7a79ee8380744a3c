use vstd::prelude::*;

verus! {

/// Revision of the container header.
#[derive(Clone, Copy, Debug, PartialEq, Eq, Structural)]
pub enum NtrFileVersion {
    Version0100,
    Version0101,
}

impl NtrFileVersion {
    /// The on-disk value of this revision.
    pub open spec fn code(self) -> u16 {
        match self {
            NtrFileVersion::Version0100 => 0x0100,
            NtrFileVersion::Version0101 => 0x0101,
        }
    }

    pub fn from_u16(value: u16) -> (r: Option<Self>)
        ensures
            r matches Some(v) ==> v.code() == value,
            r is None ==> forall|v: Self| v.code() != value,
    {
        match value {
            0x0100 => Some(NtrFileVersion::Version0100),
            0x0101 => Some(NtrFileVersion::Version0101),
            _ => None,
        }
    }

    pub fn into_u16(self) -> (r: u16)
        ensures
            r == self.code(),
    {
        match self {
            NtrFileVersion::Version0100 => 0x0100,
            NtrFileVersion::Version0101 => 0x0101,
        }
    }
}

impl Default for NtrFileVersion {
    fn default() -> (r: Self)
        ensures
            r == NtrFileVersion::Version0100,
    {
        NtrFileVersion::Version0100
    }
}

/// Pixel format of graphics data.
#[derive(Clone, Copy, Debug, PartialEq, Eq, Structural)]
pub enum NtrTextureFormat {
    NoFormat,
    A3i5,
    Palette4,
    Palette16,
    Palette256,
    Compressed,
    A5i3,
    Direct,
}

impl NtrTextureFormat {
    /// The on-disk value of this format.
    pub open spec fn code(self) -> u16 {
        match self {
            NtrTextureFormat::NoFormat => 0,
            NtrTextureFormat::A3i5 => 1,
            NtrTextureFormat::Palette4 => 2,
            NtrTextureFormat::Palette16 => 3,
            NtrTextureFormat::Palette256 => 4,
            NtrTextureFormat::Compressed => 5,
            NtrTextureFormat::A5i3 => 6,
            NtrTextureFormat::Direct => 7,
        }
    }

    /// Whether this is one of the two indexed formats that graphics and palettes carry.
    pub open spec fn is_indexed(self) -> bool {
        self == NtrTextureFormat::Palette16 || self == NtrTextureFormat::Palette256
    }

    pub fn from_u16(value: u16) -> (r: Option<Self>)
        ensures
            r matches Some(v) ==> v.code() == value,
            r is None ==> forall|v: Self| v.code() != value,
    {
        match value {
            0 => Some(NtrTextureFormat::NoFormat),
            1 => Some(NtrTextureFormat::A3i5),
            2 => Some(NtrTextureFormat::Palette4),
            3 => Some(NtrTextureFormat::Palette16),
            4 => Some(NtrTextureFormat::Palette256),
            5 => Some(NtrTextureFormat::Compressed),
            6 => Some(NtrTextureFormat::A5i3),
            7 => Some(NtrTextureFormat::Direct),
            _ => None,
        }
    }

    pub fn into_u16(self) -> (r: u16)
        ensures
            r == self.code(),
    {
        match self {
            NtrTextureFormat::NoFormat => 0,
            NtrTextureFormat::A3i5 => 1,
            NtrTextureFormat::Palette4 => 2,
            NtrTextureFormat::Palette16 => 3,
            NtrTextureFormat::Palette256 => 4,
            NtrTextureFormat::Compressed => 5,
            NtrTextureFormat::A5i3 => 6,
            NtrTextureFormat::Direct => 7,
        }
    }

    pub fn is_indexed_format(&self) -> (r: bool)
        ensures
            r == self.is_indexed(),
    {
        match self {
            NtrTextureFormat::Palette16 | NtrTextureFormat::Palette256 => true,
            _ => false,
        }
    }
}

impl Default for NtrTextureFormat {
    fn default() -> (r: Self)
        ensures
            r == NtrTextureFormat::Palette16,
    {
        NtrTextureFormat::Palette16
    }
}

/// How tile data is addressed: as a 2D grid or as a 1D region of a given size.
#[derive(Clone, Copy, Debug, PartialEq, Eq, Structural)]
pub enum NtrMappingType {
    Mode2D,
    Mode1D32K,
    Mode1D64K,
    Mode1D128K,
    Mode1D256K,
}

impl NtrMappingType {
    /// The value that character-graphics files store for this mode.
    pub open spec fn ncgr_code(self) -> u32 {
        match self {
            NtrMappingType::Mode2D => 0,
            NtrMappingType::Mode1D32K => 0x00000010,
            NtrMappingType::Mode1D64K => 0x00100010,
            NtrMappingType::Mode1D128K => 0x00200010,
            NtrMappingType::Mode1D256K => 0x00300010,
        }
    }

    /// The value that cell banks store for this mode.
    pub open spec fn ncer_code(self) -> u32 {
        match self {
            NtrMappingType::Mode1D32K => 0,
            NtrMappingType::Mode1D64K => 1,
            NtrMappingType::Mode1D128K => 2,
            NtrMappingType::Mode1D256K => 3,
            NtrMappingType::Mode2D => 4,
        }
    }

    pub fn from_u32_ncgr(value: u32) -> (r: Option<Self>)
        ensures
            r matches Some(v) ==> v.ncgr_code() == value,
            r is None ==> forall|v: Self| v.ncgr_code() != value,
    {
        match value {
            0 => Some(NtrMappingType::Mode2D),
            0x00000010 => Some(NtrMappingType::Mode1D32K),
            0x00100010 => Some(NtrMappingType::Mode1D64K),
            0x00200010 => Some(NtrMappingType::Mode1D128K),
            0x00300010 => Some(NtrMappingType::Mode1D256K),
            _ => None,
        }
    }

    pub fn into_u32_ncgr(self) -> (r: u32)
        ensures
            r == self.ncgr_code(),
    {
        match self {
            NtrMappingType::Mode2D => 0,
            NtrMappingType::Mode1D32K => 0x00000010,
            NtrMappingType::Mode1D64K => 0x00100010,
            NtrMappingType::Mode1D128K => 0x00200010,
            NtrMappingType::Mode1D256K => 0x00300010,
        }
    }

    pub fn from_u32_ncer(value: u32) -> (r: Option<Self>)
        ensures
            r matches Some(v) ==> v.ncer_code() == value,
            r is None ==> forall|v: Self| v.ncer_code() != value,
    {
        match value {
            0 => Some(NtrMappingType::Mode1D32K),
            1 => Some(NtrMappingType::Mode1D64K),
            2 => Some(NtrMappingType::Mode1D128K),
            3 => Some(NtrMappingType::Mode1D256K),
            4 => Some(NtrMappingType::Mode2D),
            _ => None,
        }
    }

    pub fn into_u32_ncer(self) -> (r: u32)
        ensures
            r == self.ncer_code(),
    {
        match self {
            NtrMappingType::Mode1D32K => 0,
            NtrMappingType::Mode1D64K => 1,
            NtrMappingType::Mode1D128K => 2,
            NtrMappingType::Mode1D256K => 3,
            NtrMappingType::Mode2D => 4,
        }
    }
}

impl Default for NtrMappingType {
    fn default() -> (r: Self)
        ensures
            r == NtrMappingType::Mode2D,
    {
        NtrMappingType::Mode2D
    }
}

/// Layout of graphics data.
#[derive(Clone, Copy, Debug, PartialEq, Eq, Structural)]
pub enum NtrCharacterFormat {
    /// Data is arranged in 8x8 tiles. Also sometimes known as "tiled".
    Character,
    /// Data is arranged linearly in sequence like in scanlines. Also sometimes
    /// known as "scanned".
    Bitmap,
    /// Functionally equivalent to `Character`.
    Character256,
}

impl NtrCharacterFormat {
    /// The on-disk value of this layout.
    pub open spec fn code(self) -> u32 {
        match self {
            NtrCharacterFormat::Character => 0,
            NtrCharacterFormat::Bitmap => 1,
            NtrCharacterFormat::Character256 => 256,
        }
    }

    pub fn from_u32(value: u32) -> (r: Option<Self>)
        ensures
            r matches Some(v) ==> v.code() == value,
            r is None ==> forall|v: Self| v.code() != value,
    {
        match value {
            0 => Some(NtrCharacterFormat::Character),
            1 => Some(NtrCharacterFormat::Bitmap),
            256 => Some(NtrCharacterFormat::Character256),
            _ => None,
        }
    }

    pub fn into_u32(self) -> (r: u32)
        ensures
            r == self.code(),
    {
        match self {
            NtrCharacterFormat::Character => 0,
            NtrCharacterFormat::Bitmap => 1,
            NtrCharacterFormat::Character256 => 256,
        }
    }
}

impl Default for NtrCharacterFormat {
    fn default() -> (r: Self)
        ensures
            r == NtrCharacterFormat::Character,
    {
        NtrCharacterFormat::Character
    }
}

/// Sprite dimensions, a combination of a shape and a size class.
#[derive(Clone, Copy, Debug, PartialEq, Eq, Structural)]
pub enum OamSize {
    Oam8x8,
    Oam16x16,
    Oam32x32,
    Oam64x64,
    Oam16x8,
    Oam32x8,
    Oam32x16,
    Oam64x32,
    Oam8x16,
    Oam8x32,
    Oam16x32,
    Oam32x64,
}

impl OamSize {
    /// The (shape, size) pair stored in the attribute words.
    pub open spec fn code(self) -> (u8, u8) {
        match self {
            OamSize::Oam8x8 => (0, 0),
            OamSize::Oam16x16 => (0, 1),
            OamSize::Oam32x32 => (0, 2),
            OamSize::Oam64x64 => (0, 3),
            OamSize::Oam16x8 => (1, 0),
            OamSize::Oam32x8 => (1, 1),
            OamSize::Oam32x16 => (1, 2),
            OamSize::Oam64x32 => (1, 3),
            OamSize::Oam8x16 => (2, 0),
            OamSize::Oam8x32 => (2, 1),
            OamSize::Oam16x32 => (2, 2),
            OamSize::Oam32x64 => (2, 3),
        }
    }

    pub fn from_shape_size(shape: u8, size: u8) -> (r: Option<Self>)
        ensures
            r matches Some(v) ==> v.code() == (shape, size),
            r is None ==> forall|v: Self| v.code() != (shape, size),
    {
        match (shape, size) {
            (0, 0) => Some(OamSize::Oam8x8),
            (0, 1) => Some(OamSize::Oam16x16),
            (0, 2) => Some(OamSize::Oam32x32),
            (0, 3) => Some(OamSize::Oam64x64),
            (1, 0) => Some(OamSize::Oam16x8),
            (1, 1) => Some(OamSize::Oam32x8),
            (1, 2) => Some(OamSize::Oam32x16),
            (1, 3) => Some(OamSize::Oam64x32),
            (2, 0) => Some(OamSize::Oam8x16),
            (2, 1) => Some(OamSize::Oam8x32),
            (2, 2) => Some(OamSize::Oam16x32),
            (2, 3) => Some(OamSize::Oam32x64),
            _ => None,
        }
    }

    pub fn into_shape_size(self) -> (r: (u8, u8))
        ensures
            r == self.code(),
    {
        match self {
            OamSize::Oam8x8 => (0, 0),
            OamSize::Oam16x16 => (0, 1),
            OamSize::Oam32x32 => (0, 2),
            OamSize::Oam64x64 => (0, 3),
            OamSize::Oam16x8 => (1, 0),
            OamSize::Oam32x8 => (1, 1),
            OamSize::Oam32x16 => (1, 2),
            OamSize::Oam64x32 => (1, 3),
            OamSize::Oam8x16 => (2, 0),
            OamSize::Oam8x32 => (2, 1),
            OamSize::Oam16x32 => (2, 2),
            OamSize::Oam32x64 => (2, 3),
        }
    }
}

/// Sprite rendering mode.
#[derive(Clone, Copy, Debug, PartialEq, Eq, Structural)]
pub enum ObjMode {
    Normal,
    Translucent,
    Window,
    Bitmap,
}

impl ObjMode {
    /// The 2-bit value stored in the attribute word.
    pub open spec fn code(self) -> u16 {
        match self {
            ObjMode::Normal => 0,
            ObjMode::Translucent => 1,
            ObjMode::Window => 2,
            ObjMode::Bitmap => 3,
        }
    }

    pub fn from_u16(value: u16) -> (r: Option<Self>)
        ensures
            r matches Some(v) ==> v.code() == value,
            r is None ==> forall|v: Self| v.code() != value,
    {
        match value {
            0 => Some(ObjMode::Normal),
            1 => Some(ObjMode::Translucent),
            2 => Some(ObjMode::Window),
            3 => Some(ObjMode::Bitmap),
            _ => None,
        }
    }

    pub fn into_u16(self) -> (r: u16)
        ensures
            r == self.code(),
    {
        match self {
            ObjMode::Normal => 0,
            ObjMode::Translucent => 1,
            ObjMode::Window => 2,
            ObjMode::Bitmap => 3,
        }
    }
}

} // verus!
