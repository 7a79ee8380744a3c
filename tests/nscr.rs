use nitrogfx::nscr::{flip_tile_horizontal, flip_tile_vertical, min_colors_in_palette, ScreenEntry};
use nitrogfx::ntr::{NtrFile, NtrFileBlock};
use nitrogfx::palette::Color;
use nitrogfx::{Image, Nscr, NtrError, NtrFileVersion, NtrTextureFormat, Palette};

fn scrn_file(width: u16, height: u16, tf: u16, bg: u16, raw: &[u8]) -> NtrFile {
    let mut c = Vec::new();
    c.extend_from_slice(&width.to_le_bytes());
    c.extend_from_slice(&height.to_le_bytes());
    c.extend_from_slice(&tf.to_le_bytes());
    c.extend_from_slice(&bg.to_le_bytes());
    c.extend_from_slice(&(raw.len() as u32).to_le_bytes());
    c.extend_from_slice(raw);
    NtrFile::new(*b"RCSN", NtrFileVersion::Version0100, vec![NtrFileBlock::new(*b"NRCS", c)])
}

#[test]
fn one_byte_entries_have_no_flips_or_bank() {
    // 16 x 8 pixels: two tiles, one byte each
    let f = scrn_file(16, 8, 1, 1, &[5, 0xF3]);
    let s = Nscr::read_from_ntr_file(&f).unwrap();
    assert_eq!(s.width_in_tiles, 2);
    assert_eq!(s.texture_format, NtrTextureFormat::Palette256);
    assert_eq!(
        s.screen_entries,
        vec![
            ScreenEntry { tile_index: 5, h_flip: false, v_flip: false, palette_index: 0 },
            ScreenEntry { tile_index: 0xF3, h_flip: false, v_flip: false, palette_index: 0 },
        ]
    );
}

#[test]
fn two_byte_entries_carry_flips_and_bank() {
    let f = scrn_file(16, 8, 0, 0, &[0x05, 0xA4, 0xFF, 0x0B]);
    let s = Nscr::read_from_ntr_file(&f).unwrap();
    assert_eq!(s.texture_format, NtrTextureFormat::Palette16);
    assert_eq!(
        s.screen_entries,
        vec![
            ScreenEntry { tile_index: 5, h_flip: true, v_flip: false, palette_index: 0xA },
            ScreenEntry { tile_index: 0x3FF, h_flip: false, v_flip: true, palette_index: 0 },
        ]
    );
}

#[test]
fn screen_size_must_match_dimensions() {
    let f = scrn_file(16, 8, 0, 0, &[0, 0]);
    assert!(matches!(Nscr::read_from_ntr_file(&f), Err(NtrError::Malformed)));
    let f = scrn_file(16, 8, 0, 3, &[0, 0, 0, 0]);
    assert!(matches!(Nscr::read_from_ntr_file(&f), Err(NtrError::Unsupported)));
}

#[test]
fn flips_mirror_a_tile() {
    let mut t = [0u8; 64];
    for (k, p) in t.iter_mut().enumerate() {
        *p = k as u8;
    }
    let mut h = t;
    flip_tile_horizontal(&mut h);
    assert_eq!(h[0], 7);
    assert_eq!(h[9], 14);
    let mut v = t;
    flip_tile_vertical(&mut v);
    assert_eq!(v[0], 56);
    assert_eq!(v[63], 7);
}

#[test]
fn min_colors_uses_highest_bank() {
    let mut t0 = [0u8; 64];
    t0[3] = 9;
    let mut t1 = [0u8; 64];
    t1[10] = 4;
    let es = vec![
        ScreenEntry { tile_index: 0, h_flip: false, v_flip: false, palette_index: 1 },
        ScreenEntry { tile_index: 1, h_flip: false, v_flip: false, palette_index: 2 },
    ];
    assert_eq!(min_colors_in_palette(&es, &[t0, t1]), 4 + 2 * 16);
}

#[test]
fn screen_drawn_with_flipped_tile() {
    // tile set: two tiles stacked, pixel k of tile t is (16 * t + k) % 16
    let pixels: Vec<u8> = (0..128u32).map(|i| (i % 16) as u8).collect();
    let palette = Palette::new(vec![Color::new(0, 0, 0); 16]);
    let tileset = Image::new(8, &pixels, Some(palette));
    let s = Nscr {
        width_in_tiles: 1,
        texture_format: NtrTextureFormat::Palette16,
        screen_entries: vec![ScreenEntry { tile_index: 1, h_flip: true, v_flip: false, palette_index: 0 }],
    };
    let img = s.to_image(&tileset).unwrap();
    assert_eq!(img.width(), 8);
    // first row of tile 1 is 0..8, mirrored
    assert_eq!(&img.pixels()[0..8], &[7, 6, 5, 4, 3, 2, 1, 0]);
    assert_eq!(img.palette().unwrap().colors().len(), 16);
    let no_palette = Image::new(8, &pixels, None);
    assert!(s.to_image(&no_palette).is_err());
}
