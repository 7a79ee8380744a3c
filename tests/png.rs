use nitrogfx::palette::Color;
use nitrogfx::png::PngBitDepth;
use nitrogfx::{Image, Palette, Png};

#[test]
fn raster_parts_for_grays() {
    let img = Image::new(4, &[0, 1, 2, 15, 3, 4, 5, 6], None);
    let (pal, depth, rows) = Png::from_image(img).raster_parts().unwrap();
    assert_eq!(pal.colors().len(), 16);
    assert_eq!(depth, PngBitDepth::Four);
    assert_eq!(rows, vec![0x01, 0x2F, 0x34, 0x56]);
    let img = Image::new(2, &[0, 200], None);
    let (pal, depth, rows) = Png::from_image(img).raster_parts().unwrap();
    assert_eq!(pal.colors().len(), 256);
    assert_eq!(depth, PngBitDepth::Eight);
    assert_eq!(rows, vec![0, 200]);
}

#[test]
fn small_palette_has_no_depth() {
    let img = Image::new(2, &[0, 1], Some(Palette::new(vec![Color::new(0, 0, 0); 4])));
    assert!(Png::from_image(img).raster_parts().is_err());
}

#[test]
fn palette_bytes_both_ways() {
    let p = Png::read_palette(&[1, 2, 3, 4, 5, 6]).unwrap();
    assert_eq!(p.colors(), &[Color::new(1, 2, 3), Color::new(4, 5, 6)]);
    assert_eq!(Png::write_palette(&p), vec![1, 2, 3, 4, 5, 6]);
    assert!(Png::read_palette(&[1, 2]).is_err());
}

#[test]
fn raster_rows_read_high_nibble_first() {
    let img = Png::read_image(2, PngBitDepth::Four, &[0x12, 0x34], Palette::gen_16_colors()).unwrap();
    assert_eq!(img.pixels(), &[1, 2, 3, 4]);
    assert_eq!(img.height(), 2);
    assert!(Png::read_image(3, PngBitDepth::Four, &[0x12, 0x34], Palette::gen_16_colors()).is_err());
}

#[test]
fn large_palette_is_truncated() {
    let img = Image::new(1, &[0], Some(Palette::new(vec![Color::new(1, 1, 1); 300])));
    let png = Png::from_image(img);
    assert_eq!(png.to_image().palette().unwrap().colors().len(), 256);
}
