use wl_binclock::args::{
    argb_pixels, image_file_palette, image_palette, parse_palette, ImageFileError, PaletteSource,
};
use wl_binclock::draw::Palette;
use wl_binclock::hex::{IntErrorKind, ParseIntError};

#[test]
fn palette_hex_colours() {
    assert_eq!(parse_palette("0xff000000"), Ok(PaletteSource::Color(0xff000000)));
    assert_eq!(parse_palette("0xffffffff"), Ok(PaletteSource::Color(0xffffffff)));
    assert_eq!(parse_palette("0xff80e8b6"), Ok(PaletteSource::Color(0xff80e8b6)));
    assert_eq!(parse_palette("0xFFA1FFF9"), Ok(PaletteSource::Color(0xffa1fff9)));
}

#[test]
fn palette_hex_errors() {
    assert_eq!(parse_palette("0x"), Err(ParseIntError { kind: IntErrorKind::Empty }));
    assert_eq!(parse_palette("0xzz"), Err(ParseIntError { kind: IntErrorKind::InvalidDigit }));
    assert_eq!(parse_palette("0x1ffffffff"), Err(ParseIntError { kind: IntErrorKind::PosOverflow }));
}

#[test]
fn palette_zero_is_fully_transparent() {
    // `--bg 0  # full transparent`
    assert_eq!(parse_palette("0"), Ok(PaletteSource::Color(0)));
}

#[test]
fn palette_image_paths() {
    assert_eq!(parse_palette("redstone_lamp_on.png"), Ok(PaletteSource::ImageFile));
    assert_eq!(parse_palette("redstone_lamp.png"), Ok(PaletteSource::ImageFile));
    assert_eq!(parse_palette(""), Ok(PaletteSource::ImageFile));
    assert_eq!(parse_palette("0X10"), Ok(PaletteSource::ImageFile));
}

#[test]
fn rgba_bytes_become_argb_pixels() {
    let raw = [0x11, 0x22, 0x33, 0x44, 0xaa, 0xbb, 0xcc, 0xdd, 0x01, 0x02];
    assert_eq!(argb_pixels(&raw), vec![0x44112233, 0xddaabbcc]);
    assert_eq!(argb_pixels(&[]), Vec::<u32>::new());
}

#[test]
fn image_palette_needs_sixteen_by_sixteen() {
    let raw: Vec<u8> = (0..1024u32).map(|i| (i % 251) as u8).collect();
    match image_palette(16, 16, &raw) {
        Some(Palette::Image(v)) => {
            assert_eq!(v.len(), 256);
            assert_eq!(v[0], u32::from_be_bytes([raw[3], raw[0], raw[1], raw[2]]));
            assert_eq!(v[255], u32::from_be_bytes([raw[1023], raw[1020], raw[1021], raw[1022]]));
        }
        _ => panic!("a 16x16 image is a palette"),
    }
    assert!(image_palette(32, 8, &raw).is_none());
    assert!(image_palette(8, 32, &raw).is_none());
    assert!(image_palette(256, 1, &raw).is_none());
    assert!(image_palette(16, 16, &raw[..1020]).is_none());
}

fn png_of(width: u32, height: u32) -> (Vec<u8>, Vec<u8>) {
    let raw: Vec<u8> = (0..width * height * 4).map(|i| (i * 7 % 256) as u8).collect();
    let img = image::RgbaImage::from_raw(width, height, raw.clone()).unwrap();
    let mut out = std::io::Cursor::new(Vec::new());
    image::DynamicImage::ImageRgba8(img).write_to(&mut out, image::ImageFormat::Png).unwrap();
    (out.into_inner(), raw)
}

#[test]
fn image_file_palette_decodes_sixteen_by_sixteen() {
    let (png, raw) = png_of(16, 16);
    match image_file_palette("redstone_lamp_on.png", &png) {
        Ok(Palette::Image(v)) => assert_eq!(v, argb_pixels(&raw)),
        other => panic!("unexpected {:?}", other),
    }
}

#[test]
fn image_file_palette_refuses_other_sizes() {
    for (w, h) in [(32, 8), (8, 32), (256, 1), (17, 17)] {
        let (png, _) = png_of(w, h);
        assert_eq!(image_file_palette("a.png", &png).unwrap_err(), ImageFileError::NotSixteenBySixteen);
    }
}

#[test]
fn image_file_palette_refuses_undecodable() {
    let (png, _) = png_of(16, 16);
    assert_eq!(image_file_palette("0", &png).unwrap_err(), ImageFileError::Undecodable);
    assert_eq!(image_file_palette("a.txt", &png).unwrap_err(), ImageFileError::Undecodable);
    assert_eq!(image_file_palette("a.png", b"not a png").unwrap_err(), ImageFileError::Undecodable);
}
