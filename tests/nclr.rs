use nitrogfx::ntr::{NtrFile, NtrFileBlock};
use nitrogfx::palette::Color;
use nitrogfx::{Nclr, NclrMetadata, NtrError, NtrFileVersion, NtrTextureFormat, Palette};

fn pltt_payload(declared: u32, words: &[u16]) -> Vec<u8> {
    let mut c = vec![3, 0, 0, 0, 0, 0, 0, 0];
    c.extend_from_slice(&declared.to_le_bytes());
    c.extend_from_slice(&0x10u32.to_le_bytes());
    for w in words {
        c.extend_from_slice(&w.to_le_bytes());
    }
    c
}

fn nclr_file(payload: Vec<u8>) -> NtrFile {
    NtrFile::new(*b"RLCN", NtrFileVersion::Version0100, vec![NtrFileBlock::new(*b"TTLP", payload)])
}

#[test]
fn inverted_size_is_detected_and_kept() {
    let words: Vec<u16> = (0..16u16).map(|i| i * 0x421).collect();
    let declared = 0x200 - 2 * 16;
    let payload = pltt_payload(declared, &words);
    let n = Nclr::read_from_ntr_file(&nclr_file(payload.clone())).unwrap();
    assert!(n.metadata().invert_size);
    assert!(!n.metadata().high_color_bit);
    let f = n.write_to_ntr_file().unwrap();
    assert_eq!(&f.blocks()[0].contents()[8..12], &0x1E0u32.to_le_bytes());
    assert_eq!(f.blocks()[0].contents(), &payload[..]);
}

#[test]
fn plain_size_is_not_inverted() {
    let words = [0x7FFFu16, 0x001F];
    let n = Nclr::read_from_ntr_file(&nclr_file(pltt_payload(4, &words))).unwrap();
    assert!(!n.metadata().invert_size);
    assert_eq!(n.to_palette().colors(), &[Color::new(248, 248, 248), Color::new(248, 0, 0)]);
}

#[test]
fn high_color_bit_is_tracked() {
    let words = [0x8000u16, 0x0001];
    let payload = pltt_payload(4, &words);
    let n = Nclr::read_from_ntr_file(&nclr_file(payload.clone())).unwrap();
    assert!(n.metadata().high_color_bit);
    let f = n.write_to_ntr_file().unwrap();
    // both words come back with bit 15 set
    assert_eq!(&f.blocks()[0].contents()[16..20], &[0x00, 0x80, 0x01, 0x80]);
}

#[test]
fn wrong_declared_size_is_rejected() {
    let words = [0u16, 1];
    let r = Nclr::read_from_ntr_file(&nclr_file(pltt_payload(6, &words)));
    assert!(matches!(r, Err(NtrError::Malformed)));
}

#[test]
fn palette_indexes_round_trip() {
    let palette = Palette::new(vec![Color::new(8, 16, 24); 16]);
    let meta = NclrMetadata::default()
        .with_texture_format(NtrTextureFormat::Palette256)
        .pltt_0002(7)
        .extended(true)
        .with_palette_indexes(vec![0, 1, 5]);
    let n = Nclr::from_palette(palette, meta);
    let data = n.write_to_data().unwrap();
    let m = Nclr::read_from_data(&data).unwrap();
    let md = m.metadata();
    assert_eq!(md.texture_format, NtrTextureFormat::Palette256);
    assert_eq!(md.pltt_0002, 7);
    assert!(md.extended);
    assert_eq!(md.palette_indexes, vec![0, 1, 5]);
    assert_eq!(m.to_palette().colors(), &[Color::new(8, 16, 24); 16][..]);
    let f = n.write_to_ntr_file().unwrap();
    assert_eq!(f.blocks()[1].id(), b"PMCP");
    assert_eq!(f.blocks()[1].contents(), &[3, 0, 0xEF, 0xBE, 8, 0, 0, 0, 0, 0, 1, 0, 5, 0]);
}

#[test]
fn inverted_size_needs_small_palette() {
    let palette = Palette::new(vec![Color::new(0, 0, 0); 300]);
    let n = Nclr::from_palette(palette, NclrMetadata::default().invert_size(true));
    assert!(matches!(n.write_to_ntr_file(), Err(NtrError::Precondition)));
}
