use nitrogfx::ncer::{BoundingRectangle, Cell, CellAttribute, OamData};
use nitrogfx::enums::{OamSize, ObjMode};
use nitrogfx::ntr::NtrFile;
use nitrogfx::{Ncer, NtrError, NtrFileVersion, NtrMappingType};

fn oam(x: i16, tile: u16) -> OamData {
    OamData {
        y: -3,
        x,
        affine: false,
        disable: false,
        h_flip: true,
        v_flip: false,
        mode: ObjMode::Translucent,
        mosaic: false,
        color_mode: 1,
        oam_size: OamSize::Oam32x16,
        tile_number: tile,
        priority: 2,
        palette_number: 9,
    }
}

fn bank(counts: &[usize], rects: bool) -> Ncer {
    let cells = counts
        .iter()
        .enumerate()
        .map(|(i, &n)| Cell {
            attribute: CellAttribute {
                h_flip: false,
                v_flip: false,
                has_bounding_rectangle: rects,
                bounding_sphere_radius: 5,
            },
            oam_data: (0..n).map(|j| oam(-(j as i16) - 1, (i * 10 + j) as u16)).collect(),
            bounding_rectangle: if rects {
                Some(BoundingRectangle { max_x: 4, max_y: 5, min_x: -4, min_y: -5 })
            } else {
                None
            },
        })
        .collect();
    Ncer {
        version: NtrFileVersion::Version0100,
        cells,
        mapping_type: NtrMappingType::Mode1D32K,
        vram_data: None,
        has_user_extended_attribute_data: false,
        labels: vec![b"a".to_vec(), b"b".to_vec(), b"c".to_vec()],
    }
}

#[test]
fn oam_words_exact() {
    let (a0, a1, a2) = oam(-1, 0x155).to_words();
    // y = 0xFD, mode 1 at bit 10, color at bit 13, shape 1 at bit 14
    assert_eq!(a0, 0xFD | (1 << 10) | (1 << 13) | (1 << 14));
    // x = -1 + 512 = 511, h-flip at bit 12, size 2 at bit 14
    assert_eq!(a1, 511 | (1 << 12) | (2 << 14));
    assert_eq!(a2, 0x155 | (2 << 10) | (9 << 12));
}

#[test]
fn oam_round_trip_both_ways() {
    let o = oam(-256, 1023);
    let (a0, a1, a2) = o.to_words();
    assert_eq!(OamData::from_words(a0, a1, a2), Some(o));
    let o = oam(255, 0);
    let (a0, a1, a2) = o.to_words();
    assert_eq!(OamData::from_words(a0, a1, a2), Some(o));
    let words = (0x12F0u16, 0xC1FFu16, 0xFFFFu16);
    let d = OamData::from_words(words.0, words.1, words.2).unwrap();
    assert_eq!(d.x, -1);
    assert_eq!(d.to_words(), words);
}

#[test]
fn oam_shape_three_is_rejected() {
    assert_eq!(OamData::from_words(0xC000, 0, 0), None);
}

#[test]
fn cell_attribute_requires_consistent_flip_bit() {
    let a = CellAttribute::from_u16(0x0700 | 0x0800 | 0x3F).unwrap();
    assert!(a.h_flip && a.v_flip && a.has_bounding_rectangle);
    assert_eq!(a.bounding_sphere_radius, 0x3F);
    assert_eq!(a.into_u16(), 0x0F3F);
    assert_eq!(CellAttribute::from_u16(0x0500), None);
    assert_eq!(CellAttribute::from_u16(0x0400), None);
}

#[test]
fn even_oam_total_has_no_padding() {
    let b = bank(&[1, 2, 1], false).to_cebk_block().unwrap();
    // header 24, three 8-byte entries, four 6-byte records
    assert_eq!(b.contents().len(), 24 + 3 * 8 + 4 * 6);
}

#[test]
fn odd_oam_total_has_one_padding_word() {
    let b = bank(&[1, 2, 2], false).to_cebk_block().unwrap();
    let c = b.contents();
    assert_eq!(c.len(), 24 + 3 * 8 + 5 * 6 + 2);
    assert_eq!(&c[c.len() - 2..], &[0, 0]);
}

#[test]
fn cebk_entry_layout() {
    let b = bank(&[1, 2], true).to_cebk_block().unwrap();
    let c = b.contents();
    assert_eq!(&c[0..24], &[2, 0, 1, 0, 0x18, 0, 0, 0, 0, 0, 0, 0, 0, 0, 0, 0, 0, 0, 0, 0, 0, 0, 0, 0]);
    // second cell: two records, attribute 0x805, its records start 6 bytes in
    assert_eq!(&c[40..48], &[2, 0, 0x05, 0x08, 6, 0, 0, 0]);
    assert_eq!(&c[48..56], &[4, 0, 5, 0, 0xFC, 0xFF, 0xFB, 0xFF]);
}

#[test]
fn cell_bank_round_trip() {
    for rects in [false, true] {
        let n = bank(&[1, 2, 2], rects);
        let data = n.write_to_data().unwrap();
        let m = Ncer::read_from_data(&data).unwrap();
        assert_eq!(m.cells.len(), 3);
        for (a, b) in m.cells.iter().zip(n.cells.iter()) {
            assert_eq!(a.attribute, b.attribute);
            assert_eq!(a.oam_data, b.oam_data);
            assert_eq!(a.bounding_rectangle, b.bounding_rectangle);
        }
        assert_eq!(m.labels, n.labels);
        assert_eq!(m.mapping_type, NtrMappingType::Mode1D32K);
        assert!(m.vram_data.is_none());
    }
}

#[test]
fn cell_bank_with_tables_round_trip() {
    let mut n = bank(&[1, 1], false);
    n.vram_data = Some(nitrogfx::ncer::VramData {
        max_size: 0x200,
        data: vec![
            nitrogfx::ncer::CellVramTransferData { src_offset: 0, size: 0x40 },
            nitrogfx::ncer::CellVramTransferData { src_offset: 0x40, size: 0x80 },
        ],
    });
    n.has_user_extended_attribute_data = true;
    let f = n.write_to_ntr_file().unwrap();
    let c = f.blocks()[0].contents();
    // the VRAM table starts right after the cell data (0x18 + 16 + 12)
    assert_eq!(&c[12..16], &(0x18u32 + 28).to_le_bytes());
    let m = Ncer::read_from_ntr_file(&f).unwrap();
    let v = m.vram_data.unwrap();
    assert_eq!(v.max_size, 0x200);
    assert_eq!(v.data, vec![
        nitrogfx::ncer::CellVramTransferData { src_offset: 0, size: 0x40 },
        nitrogfx::ncer::CellVramTransferData { src_offset: 0x40, size: 0x80 },
    ]);
    assert!(m.has_user_extended_attribute_data);
}

#[test]
fn cell_bank_rejects_bad_flip_bit_and_missing_blocks() {
    let n = bank(&[1], false);
    let f = n.write_to_ntr_file().unwrap();
    let mut data = f.write_to_data().unwrap();
    // the attribute word of the first cell: set bit 10 without both flips
    data[16 + 8 + 24 + 3] |= 0x04;
    assert!(matches!(Ncer::read_from_data(&data), Err(NtrError::Malformed)));
    let two = NtrFile::new(*b"RECN", NtrFileVersion::Version0100, Vec::new());
    assert!(Ncer::read_from_ntr_file(&two).is_err());
}

#[test]
fn empty_cell_bank_cannot_be_written() {
    let mut n = bank(&[1], false);
    n.cells.clear();
    assert!(matches!(n.to_cebk_block(), Err(NtrError::Precondition)));
}
