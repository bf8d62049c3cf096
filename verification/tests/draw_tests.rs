use wl_binclock::draw::{draw_point, mkmask, Painter, Palette, FRAME_BYTES};

fn pixel(buf: &[u8], off: usize) -> u32 {
    u32::from_ne_bytes([buf[off], buf[off + 1], buf[off + 2], buf[off + 3]])
}

fn offset(x: usize, y: usize, xs: usize, ys: usize) -> usize {
    (xs + x * 16) * 4 + (ys + y * 16) * 384
}

fn cell_of(byte: usize) -> Option<(usize, usize)> {
    if byte >= FRAME_BYTES {
        return None;
    }
    Some(((byte % 384) / 64, byte / 6144))
}

#[test]
fn mkmask_gives_bits_most_significant_first() {
    assert_eq!(mkmask(0), [0, 0, 0, 0]);
    assert_eq!(mkmask(5), [0, 1, 0, 1]);
    assert_eq!(mkmask(9), [1, 0, 0, 1]);
    assert_eq!(mkmask(0xf), [1, 1, 1, 1]);
    assert_eq!(mkmask(0x1a), [1, 0, 1, 0]);
}

#[test]
fn mkmask_reads_back_low_nibble() {
    for n in 0..=255u8 {
        let m = mkmask(n);
        assert!(m.iter().all(|b| *b <= 1));
        assert_eq!(m[0] * 8 + m[1] * 4 + m[2] * 2 + m[3], n % 16);
    }
}

#[test]
fn draw_point_paints_one_cell_only() {
    let mut buf = vec![7u8; FRAME_BYTES + 8];
    let palette = vec![Palette::Color(0xAABBCCDD)];
    draw_point(&mut buf, 1, 2, &palette);
    for k in 0..buf.len() {
        if cell_of(k) == Some((1, 2)) {
            let off = k - k % 4;
            assert_eq!(pixel(&buf, off), 0xAABBCCDD);
        } else {
            assert_eq!(buf[k], 7);
        }
    }
    assert_eq!(pixel(&buf, offset(1, 2, 0, 0)), 0xAABBCCDD);
    assert_eq!(pixel(&buf, offset(1, 2, 15, 15)), 0xAABBCCDD);
}

#[test]
fn draw_point_paints_image_pixels() {
    let image: Vec<u32> = (0..256u32).map(|i| 0xFF000000 | i).collect();
    let palette = vec![Palette::Image(image)];
    let mut buf = vec![0u8; FRAME_BYTES];
    draw_point(&mut buf, 5, 3, &palette);
    for ys in 0..16 {
        for xs in 0..16 {
            assert_eq!(pixel(&buf, offset(5, 3, xs, ys)), 0xFF000000 | (xs + ys * 16) as u32);
        }
    }
}

#[test]
fn draw_point_picks_from_the_palettes() {
    let palette = vec![Palette::Color(1), Palette::Color(2), Palette::Color(3)];
    for _ in 0..20 {
        let mut buf = vec![0u8; FRAME_BYTES];
        draw_point(&mut buf, 0, 0, &palette);
        let c = pixel(&buf, 0);
        assert!(c == 1 || c == 2 || c == 3);
        for ys in 0..16 {
            for xs in 0..16 {
                assert_eq!(pixel(&buf, offset(0, 0, xs, ys)), c);
            }
        }
    }
}

#[test]
fn draw_digits_shows_bits_of_each_digit() {
    let painter = Painter::new(vec![Palette::Color(0xFFFFFFFF)], vec![Palette::Color(0xFF000000)]);
    let digits = [1u8, 2, 3, 4, 0xA, 0xF];
    let mut buf = vec![9u8; FRAME_BYTES + 16];
    painter.draw_digits(&mut buf, digits);
    for (x, d) in digits.iter().enumerate() {
        for y in 0..4 {
            let bit = (d >> (3 - y)) & 1;
            let want = if bit == 1 { 0xFFFFFFFF } else { 0xFF000000 };
            for ys in 0..16 {
                for xs in 0..16 {
                    assert_eq!(pixel(&buf, offset(x, y, xs, ys)), want);
                }
            }
        }
    }
    assert!(buf[FRAME_BYTES..].iter().all(|b| *b == 9));
}

#[test]
fn draw_digits_of_a_time() {
    // 12:34:56 shown in binary, top row most significant.
    let painter = Painter::new(vec![Palette::Color(1)], vec![Palette::Color(0)]);
    let mut buf = vec![0u8; FRAME_BYTES];
    painter.draw_digits(&mut buf, [1, 2, 3, 4, 5, 6]);
    let column = |x: usize| -> u32 {
        (0..4).fold(0, |acc, y| acc * 2 + pixel(&buf, offset(x, y, 3, 3)))
    };
    assert_eq!((0..6).map(column).collect::<Vec<_>>(), vec![1, 2, 3, 4, 5, 6]);
}

#[test]
fn draw_point_needs_only_its_cell() {
    // A cell of the first row fits in a buffer that ends with the cell.
    let len = offset(0, 0, 15, 15) + 4;
    let mut buf = vec![3u8; len];
    draw_point(&mut buf, 0, 0, &[Palette::Color(0x01020304)]);
    for ys in 0..16 {
        for xs in 0..16 {
            assert_eq!(pixel(&buf, offset(0, 0, xs, ys)), 0x01020304);
        }
    }
    let untouched = (0..len).filter(|k| (k % 384) >= 64).all(|k| buf[k] == 3);
    assert!(untouched);
}

#[test]
fn same_low_nibbles_paint_the_same_frame() {
    let painter = Painter::new(vec![Palette::Color(0xFFFFFFFF)], vec![Palette::Color(0xFF000000)]);
    let mut a = vec![0u8; FRAME_BYTES];
    let mut b = vec![0u8; FRAME_BYTES];
    painter.draw_digits(&mut a, [1, 2, 3, 4, 5, 6]);
    painter.draw_digits(&mut b, [0x11, 0x22, 0xf3, 0x44, 0x85, 0x16]);
    assert!(a == b);
}

#[test]
fn draw_digits_exact_frame() {
    let painter = Painter::new(vec![Palette::Color(1)], vec![Palette::Color(0)]);
    let mut buf = vec![7u8; FRAME_BYTES];
    painter.draw_digits(&mut buf, [0, 0, 0, 0, 0, 9]);
    for py in 0..64 {
        for px in 0..96 {
            let want: u32 = if px >= 80 && (py < 16 || py >= 48) { 1 } else { 0 };
            let off = 4 * px + 384 * py;
            assert_eq!(&buf[off..off + 4], &want.to_ne_bytes());
        }
    }
}

#[test]
fn draw_digits_needs_only_the_palettes_it_uses() {
    let all_set = Painter::new(vec![Palette::Color(5)], vec![]);
    assert!(all_set.can_draw([0xf; 6]));
    assert!(!all_set.can_draw([0xf, 0xf, 0xf, 0xf, 0xf, 0xe]));
    let mut buf = vec![0u8; FRAME_BYTES];
    all_set.draw_digits(&mut buf, [0xf; 6]);
    assert!((0..FRAME_BYTES).step_by(4).all(|k| pixel(&buf, k) == 5));
    let short_image = Painter::new(vec![Palette::Image(vec![0; 10])], vec![Palette::Color(0)]);
    assert!(short_image.can_draw([0; 6]));
    assert!(!short_image.can_draw([1, 0, 0, 0, 0, 0]));
}

#[test]
fn draw_point_one_byte_order() {
    let mut buf = vec![0u8; FRAME_BYTES];
    draw_point(&mut buf, 1, 2, &[Palette::Color(0x11223344)]);
    assert_eq!(&buf[12352..12356], &0x11223344u32.to_ne_bytes());
    assert_eq!(&buf[18172..18176], &0x11223344u32.to_ne_bytes());
    assert_eq!(&buf[12348..12352], &[0; 4]);
    assert_eq!(&buf[12416..12420], &[0; 4]);
    assert_eq!(&buf[18496..18500], &[0; 4]);
}
