pub mod bytes;
pub mod enums;
pub mod error;
pub mod image;
pub mod jasc;
pub mod ncer;
pub mod ncgr;
pub mod nclr;
pub mod nscr;
pub mod ntr;
pub mod palette;
pub mod png;

pub use crate::image::Image;
pub use crate::palette::Palette;

pub use crate::jasc::Jasc;
pub use crate::png::Png;

pub use crate::ncer::Ncer;
pub use crate::ncgr::Ncgr;
pub use crate::nclr::Nclr;
pub use crate::nscr::Nscr;

pub use crate::ncgr::NcgrMetadata;
pub use crate::nclr::NclrMetadata;

pub use crate::enums::NtrCharacterFormat;
pub use crate::enums::NtrFileVersion;
pub use crate::enums::NtrMappingType;
pub use crate::enums::NtrTextureFormat;

pub use crate::error::NtrError;
