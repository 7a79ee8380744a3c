use nitrogfx::ncgr::{cipher, decipher, CharacterData, MappingData};
use nitrogfx::{
    Image, Ncgr, NcgrMetadata, NtrCharacterFormat, NtrError, NtrFileVersion, NtrMappingType,
    NtrTextureFormat,
};

fn picture(width: usize, height: usize, modulo: usize) -> Image {
    let pixels: Vec<u8> = (0..width * height).map(|i| (i * 7 % modulo) as u8).collect();
    Image::new(width, &pixels, None)
}

#[test]
fn cipher_exact_bytes() {
    assert_eq!(cipher(&[0, 0, 0x12, 0x34, 0xAB, 0xCD], 0x12345678), vec![55, 39, 204, 224, 82, 107]);
    assert_eq!(cipher(&[1, 2, 3, 4], 0), vec![39, 179, 162, 101]);
}

#[test]
fn decipher_exact_bytes() {
    let (d, k) = decipher(&[1, 2, 3, 4]);
    assert_eq!(d, vec![0, 0, 227, 140]);
    assert_eq!(k, 4048938963);
}

#[test]
fn cipher_round_trip_recovers_data_and_low_key_bits() {
    let data = vec![0, 0, 0x12, 0x34, 0xAB, 0xCD];
    let (plain, key) = decipher(&cipher(&data, 0x12345678));
    assert_eq!(plain, data);
    assert_eq!(key, 355751544);
    assert_eq!(key & 0xFFFF, 0x5678);
}

#[test]
fn ncgr_write_read_round_trip_2d() {
    let img = picture(16, 8, 16);
    let meta = NcgrMetadata::default().with_version(NtrFileVersion::Version0101);
    let g = Ncgr::from_image(img.clone(), meta).unwrap();
    let bytes = g.write_to_data().unwrap();
    let h = Ncgr::read_from_data(&bytes).unwrap();
    let m = h.metadata();
    assert_eq!(m.version, NtrFileVersion::Version0101);
    assert_eq!(m.texture_format, NtrTextureFormat::Palette16);
    assert_eq!(m.mapping_type, NtrMappingType::Mode2D);
    assert_eq!(m.character_format, NtrCharacterFormat::Character);
    assert!(!m.include_cpos);
    let back = h.to_image().unwrap();
    assert_eq!(back.width(), 16);
    assert_eq!(back.pixels(), img.pixels());
}

#[test]
fn ncgr_char_block_layout() {
    let img = picture(8, 8, 16);
    let g = Ncgr::from_image(img, NcgrMetadata::default().include_cpos(true)).unwrap();
    let f = g.write_to_ntr_file().unwrap();
    assert_eq!(f.id(), b"RGCN");
    assert_eq!(f.blocks().len(), 2);
    let c = f.blocks()[0].contents();
    assert_eq!(f.blocks()[0].id(), b"RAHC");
    // height 1, width 1, format 3, 0, mapping 0, character 0, size 32, offset 0x18
    assert_eq!(&c[0..24], &[1, 0, 1, 0, 3, 0, 0, 0, 0, 0, 0, 0, 0, 0, 0, 0, 32, 0, 0, 0, 0x18, 0, 0, 0]);
    assert_eq!(c.len(), 24 + 32);
    // pixels 0 and 7 packed into the first byte, the first in the low nibble
    assert_eq!(c[24], 0x70);
    assert_eq!(f.blocks()[1].id(), b"SOPC");
    assert_eq!(f.blocks()[1].contents(), &[0, 0, 0, 0, 1, 0, 1, 0]);
}

#[test]
fn ncgr_1d_bitmap_round_trip() {
    let img = picture(8, 4, 256);
    let meta = NcgrMetadata::default()
        .with_texture_format(NtrTextureFormat::Palette256)
        .with_mapping_type(NtrMappingType::Mode1D64K)
        .with_character_format(NtrCharacterFormat::Bitmap);
    let g = Ncgr::from_image(img.clone(), meta).unwrap();
    assert!(matches!(g.mapping_data, MappingData::OneD(_)));
    assert!(matches!(g.character_data, CharacterData::Bitmap(_)));
    let h = Ncgr::read_from_data(&g.write_to_data().unwrap()).unwrap();
    assert_eq!(h.metadata().mapping_type, NtrMappingType::Mode1D64K);
    let back = h.to_image_with_width(8).unwrap();
    assert_eq!(back.pixels(), img.pixels());
    assert!(h.to_image().is_err());
}

#[test]
fn ncgr_rejects_unaligned_picture() {
    let img = picture(12, 8, 16);
    assert!(matches!(
        Ncgr::from_image(img, NcgrMetadata::default()),
        Err(NtrError::Precondition)
    ));
}

#[test]
fn ncgr_rejects_unsupported_texture_format() {
    let g = Ncgr::from_image(picture(8, 8, 16), NcgrMetadata::default()).unwrap();
    let mut data = g.write_to_data().unwrap();
    // the texture format field of the character block
    data[16 + 8 + 4] = 5;
    assert!(matches!(Ncgr::read_from_data(&data), Err(NtrError::Unsupported)));
}

#[test]
fn ncgr_cipher_then_decipher() {
    // the first pixels are zero, so the first stored word is zero
    let mut pixels = vec![0u8; 64];
    for (i, p) in pixels.iter_mut().enumerate().skip(4) {
        *p = (i % 16) as u8;
    }
    let img = Image::new(8, &pixels, None);
    let g = Ncgr::from_image(img, NcgrMetadata::default()).unwrap();
    let ciphered = g.cipher(0xCAFEBABE).unwrap();
    let (plain, key) = ciphered.decipher().unwrap();
    assert_eq!(key & 0xFFFF, 0xBABE);
    assert_eq!(plain.to_image().unwrap().pixels(), &pixels[..]);
}
