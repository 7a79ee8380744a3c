use nitrogfx::image::{pixels_to_tiles, tiles_to_pixels};
use nitrogfx::palette::Color;
use nitrogfx::{Image, Palette};

fn ramp(n: usize) -> Vec<u8> {
    (0..n).map(|i| (i % 251) as u8).collect()
}

#[test]
fn tiles_are_cut_row_major() {
    // a picture two tiles wide and one tile high
    let pixels = ramp(128);
    let tiles = pixels_to_tiles(&pixels, 2);
    assert_eq!(tiles.len(), 2);
    // first row of the first tile: pixels 0..8; second row: 16..24
    assert_eq!(&tiles[0][0..8], &pixels[0..8]);
    assert_eq!(&tiles[0][8..16], &pixels[16..24]);
    // first row of the second tile: pixels 8..16
    assert_eq!(&tiles[1][0..8], &pixels[8..16]);
    assert_eq!(tiles[1][63], pixels[127]);
}

#[test]
fn tiles_round_trip() {
    for w in [1usize, 2, 4] {
        let pixels = ramp(64 * 4 * w);
        let tiles = pixels_to_tiles(&pixels, w);
        assert_eq!(tiles_to_pixels(&tiles, w), pixels);
    }
}

#[test]
fn pixels_round_trip_from_tiles() {
    let mut tiles = vec![[0u8; 64]; 6];
    for (t, tile) in tiles.iter_mut().enumerate() {
        for (k, p) in tile.iter_mut().enumerate() {
            *p = (t * 64 + k) as u8;
        }
    }
    let pixels = tiles_to_pixels(&tiles, 3);
    assert_eq!(pixels.len(), 6 * 64);
    assert_eq!(pixels_to_tiles(&pixels, 3), tiles);
}

#[test]
fn image_height_and_crop() {
    let pixels = ramp(4 * 3);
    let img = Image::new(4, &pixels, Some(Palette::new(vec![Color::new(1, 2, 3)])));
    assert_eq!(img.width(), 4);
    assert_eq!(img.height(), 3);
    let c = img.crop(1, 1, 2, 2);
    assert_eq!(c.width(), 2);
    assert_eq!(c.pixels(), &[5, 6, 9, 10]);
    assert_eq!(c.palette().unwrap().colors(), &[Color::new(1, 2, 3)]);
}

#[test]
fn raw_4bpp_unpacks_low_nibble_first() {
    assert_eq!(Image::raw_data_4bpp_to_pixels(&[0x21, 0xF0]), vec![1, 2, 0, 15]);
    assert_eq!(Image::raw_data_8bpp_to_pixels(&[7, 8]), vec![7, 8]);
}

#[test]
fn color_word_expands_and_packs() {
    let c = Color::from_u16(0x7FFF);
    assert_eq!(c, Color::new(248, 248, 248));
    assert_eq!(Color::from_u16(0x8001), Color::new(8, 0, 0));
    assert_eq!(Color::new(8, 16, 24).into_u16(), 1 + (2 << 5) + (3 << 10));
    assert_eq!(Color::new(255, 0, 0).into_u16(), 31);
}

#[test]
fn gray_palettes() {
    let p = Palette::gen_16_colors();
    assert_eq!(p.colors().len(), 16);
    assert_eq!(p.colors()[1], Color::new(0x11, 0x11, 0x11));
    assert_eq!(p.colors()[15], Color::new(0xFF, 0xFF, 0xFF));
    let p = Palette::gen_256_colors();
    assert_eq!(p.colors().len(), 256);
    assert_eq!(p.colors()[200], Color::new(200, 200, 200));
}
