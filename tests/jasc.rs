use nitrogfx::palette::Color;
use nitrogfx::{Jasc, NtrError, Palette};

#[test]
fn jasc_text_exact() {
    let j = Jasc::from_palette(Palette::new(vec![Color::new(0, 8, 255), Color::new(10, 200, 7)]));
    let text = j.write_to_data();
    assert_eq!(text, b"JASC-PAL\r\n0100\r\n2\r\n0 8 255\r\n10 200 7\r\n".to_vec());
}

#[test]
fn jasc_round_trip() {
    let colors: Vec<Color> = (0..20u8).map(|i| Color::new(i * 12, 255 - i, i)).collect();
    let text = Jasc::from_palette(Palette::new(colors.clone())).write_to_data();
    let back = Jasc::read_from_data(&text).unwrap().to_palette();
    assert_eq!(back.colors(), &colors[..]);
}

#[test]
fn jasc_reads_lf_lines_and_loose_spacing() {
    let text = b"JASC-PAL\n0100\n+2\n 1\t2  3 \n4 5 +6";
    let p = Jasc::read_from_data(text).unwrap().to_palette();
    assert_eq!(p.colors(), &[Color::new(1, 2, 3), Color::new(4, 5, 6)]);
}

#[test]
fn jasc_rejects_bad_text() {
    // wrong header
    assert!(matches!(Jasc::read_from_data(b"JASC\r\n0100\r\n0\r\n"), Err(NtrError::Malformed)));
    // a channel above 255
    assert!(Jasc::read_from_data(b"JASC-PAL\r\n0100\r\n1\r\n1 2 256\r\n").is_err());
    // too few colors
    assert!(Jasc::read_from_data(b"JASC-PAL\r\n0100\r\n2\r\n1 2 3\r\n").is_err());
    // a line too many
    assert!(Jasc::read_from_data(b"JASC-PAL\r\n0100\r\n1\r\n1 2 3\r\n4 5 6\r\n").is_err());
    // four channels
    assert!(Jasc::read_from_data(b"JASC-PAL\r\n0100\r\n1\r\n1 2 3 4\r\n").is_err());
    assert!(Jasc::read_from_data(b"").is_err());
}
