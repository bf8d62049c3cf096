//! The command line's values and how a palette argument is read: a colour
//! written `0xAARRGGBB`, a bare hexadecimal colour such as `0`, or the path
//! of a 16x16 image whose RGBA pixels become the palette.

use crate::draw::Palette;
use image::ImageFormat;
use crate::hex::{hex_accumulate, hex_digit_value, hex_u32, parse_hex_u32, ParseIntError};
use crate::text::chars_of;
use vstd::prelude::*;

verus! {

broadcast use vstd::slice::group_slice_axioms;

/// The program's options.
pub struct Args {
    /// Foreground palettes (`0xAARRGGBB` or a 16x16 image).
    pub fg: Vec<Palette>,
    /// Background palettes (`0xAARRGGBB` or a 16x16 image).
    pub bg: Vec<Palette>,
    /// Edges to anchor to: top=1 bottom=2 left=4 right=8.
    pub anchor: u32,
    /// Read the digits from standard input instead of the clock.
    pub pipe: bool,
}

/// What a palette argument names.
#[derive(Clone, Copy, Debug, PartialEq, Eq, Structural)]
pub enum PaletteSource {
    /// A colour, 0xAARRGGBB.
    Color(u32),
    /// An image file, at the argument's path.
    ImageFile,
}

/// Whether `s` starts with the characters `0x`.
pub open spec fn has_hex_prefix(s: Seq<char>) -> bool {
    s.len() >= 2 && s[0] == '0' && s[1] == 'x'
}

/// A palette argument: after `0x` it must be a hex `u32`; without the prefix
/// it is a colour when it reads as one (so `--bg 0` is fully transparent),
/// and the path of an image otherwise. An image's format comes from its
/// path's extension, and a bare hex number has none, so no such argument
/// could name a usable image: reading it as a colour takes no image away.
pub open spec fn palette_source(s: Seq<char>) -> Result<PaletteSource, ParseIntError> {
    if has_hex_prefix(s) {
        match hex_u32(s.skip(2)) {
            Ok(c) => Ok(PaletteSource::Color(c)),
            Err(e) => Err(e),
        }
    } else {
        match hex_u32(s) {
            Ok(c) => Ok(PaletteSource::Color(c)),
            Err(_) => Ok(PaletteSource::ImageFile),
        }
    }
}

/// The lowercase hex digit for `n < 16`.
pub open spec fn hex_char(n: u32) -> char {
    if n < 10 {
        (48 + n) as char
    } else {
        (87 + n) as char
    }
}

/// The eight hex digits of `c`, most significant first, as `{:08x}` writes them.
pub open spec fn hex8(c: u32) -> Seq<char> {
    seq![
        hex_char((c >> 28u32) & 0xf),
        hex_char((c >> 24u32) & 0xf),
        hex_char((c >> 20u32) & 0xf),
        hex_char((c >> 16u32) & 0xf),
        hex_char((c >> 12u32) & 0xf),
        hex_char((c >> 8u32) & 0xf),
        hex_char((c >> 4u32) & 0xf),
        hex_char(c & 0xf),
    ]
}

/// A palette argument that starts with `0x` is exactly the colour that the
/// rest reads as: every byte is kept, alpha included.
pub proof fn lemma_prefixed_colour(s: Seq<char>, c: u32)
    requires
        has_hex_prefix(s),
        hex_u32(s.skip(2)) == Ok::<u32, ParseIntError>(c),
    ensures
        palette_source(s) == Ok::<PaletteSource, ParseIntError>(PaletteSource::Color(c)),
{
}

/// One step of reading digits: a hex digit `d` after the value `acc`.
proof fn lemma_hex_step(t: Seq<char>, acc: int, d: u32)
    requires
        t.len() > 0,
        d < 16,
        t[0] == hex_char(d),
        0 <= acc,
        acc * 16 + d <= u32::MAX,
    ensures
        hex_accumulate(t, acc) == hex_accumulate(t.drop_first(), acc * 16 + d),
{
    assert(hex_digit_value(hex_char(d)) == Some(d));
}

/// Every colour written `0x` and eight hex digits reads back as itself,
/// whatever its alpha byte: `0x00000000` is fully transparent black.
pub proof fn lemma_colour_round_trip(c: u32)
    ensures
        hex_u32(hex8(c)) == Ok::<u32, ParseIntError>(c),
        palette_source(seq!['0', 'x'] + hex8(c)) == Ok::<PaletteSource, ParseIntError>(
            PaletteSource::Color(c),
        ),
{
    let h = hex8(c);
    let n0 = (c >> 28u32) & 0xf;
    let n1 = (c >> 24u32) & 0xf;
    let n2 = (c >> 20u32) & 0xf;
    let n3 = (c >> 16u32) & 0xf;
    let n4 = (c >> 12u32) & 0xf;
    let n5 = (c >> 8u32) & 0xf;
    let n6 = (c >> 4u32) & 0xf;
    let n7 = c & 0xf;
    assert(((c >> 28u32) & 0xf) < 16 && ((c >> 24u32) & 0xf) < 16 && ((c >> 20u32) & 0xf) < 16
        && ((c >> 16u32) & 0xf) < 16 && ((c >> 12u32) & 0xf) < 16 && ((c >> 8u32) & 0xf) < 16
        && ((c >> 4u32) & 0xf) < 16 && (c & 0xf) < 16) by (bit_vector);
    assert(((c >> 28u32) & 0xf) == c >> 28u32) by (bit_vector);
    assert((c >> 28u32) * 16 + ((c >> 24u32) & 0xf) == c >> 24u32) by (bit_vector);
    assert((c >> 24u32) * 16 + ((c >> 20u32) & 0xf) == c >> 20u32) by (bit_vector);
    assert((c >> 20u32) * 16 + ((c >> 16u32) & 0xf) == c >> 16u32) by (bit_vector);
    assert((c >> 16u32) * 16 + ((c >> 12u32) & 0xf) == c >> 12u32) by (bit_vector);
    assert((c >> 12u32) * 16 + ((c >> 8u32) & 0xf) == c >> 8u32) by (bit_vector);
    assert((c >> 8u32) * 16 + ((c >> 4u32) & 0xf) == c >> 4u32) by (bit_vector);
    assert((c >> 4u32) * 16 + (c & 0xf) == c) by (bit_vector);
    let a1 = (c >> 28u32) as int;
    let a2 = (c >> 24u32) as int;
    let a3 = (c >> 20u32) as int;
    let a4 = (c >> 16u32) as int;
    let a5 = (c >> 12u32) as int;
    let a6 = (c >> 8u32) as int;
    let a7 = (c >> 4u32) as int;
    lemma_hex_step(h.skip(0), 0, n0);
    assert(h.skip(0).drop_first() =~= h.skip(1));
    lemma_hex_step(h.skip(1), a1, n1);
    assert(h.skip(1).drop_first() =~= h.skip(2));
    lemma_hex_step(h.skip(2), a2, n2);
    assert(h.skip(2).drop_first() =~= h.skip(3));
    lemma_hex_step(h.skip(3), a3, n3);
    assert(h.skip(3).drop_first() =~= h.skip(4));
    lemma_hex_step(h.skip(4), a4, n4);
    assert(h.skip(4).drop_first() =~= h.skip(5));
    lemma_hex_step(h.skip(5), a5, n5);
    assert(h.skip(5).drop_first() =~= h.skip(6));
    lemma_hex_step(h.skip(6), a6, n6);
    assert(h.skip(6).drop_first() =~= h.skip(7));
    lemma_hex_step(h.skip(7), a7, n7);
    assert(h.skip(7).drop_first() =~= h.skip(8));
    assert(h.skip(8).len() == 0);
    assert(h.skip(0) =~= h);
    assert(h[0] != '+');
    assert(hex_u32(h) == Ok::<u32, ParseIntError>(c));
    let s = seq!['0', 'x'] + h;
    assert(s.skip(2) =~= h);
    lemma_prefixed_colour(s, c);
}

/// Reads a palette argument.
pub fn parse_palette(s: &str) -> (r: Result<PaletteSource, ParseIntError>)
    ensures
        r == palette_source(s@),
{
    let cs = chars_of(s);
    if cs.len() >= 2 && cs[0] == '0' && cs[1] == 'x' {
        let mut rest: Vec<char> = Vec::new();
        let mut i: usize = 2;
        while i < cs.len()
            invariant
                2 <= i <= cs@.len(),
                rest@ == cs@.subrange(2, i as int),
            decreases cs@.len() - i,
        {
            rest.push(cs[i]);
            i = i + 1;
        }
        assert(rest@ =~= s@.skip(2));
        match parse_hex_u32(&rest) {
            Ok(c) => Ok(PaletteSource::Color(c)),
            Err(e) => Err(e),
        }
    } else {
        match parse_hex_u32(&cs) {
            Ok(c) => Ok(PaletteSource::Color(c)),
            Err(_) => Ok(PaletteSource::ImageFile),
        }
    }
}

/// Packs an RGBA pixel as 0xAARRGGBB.
pub open spec fn argb(r: u8, g: u8, b: u8, a: u8) -> u32 {
    (a * 0x1000000 + r * 0x10000 + g * 0x100 + b) as u32
}

/// The pixels of RGBA bytes, four bytes each, as 0xAARRGGBB; bytes after
/// the last whole pixel are ignored.
pub open spec fn argb_pixels_of(raw: Seq<u8>) -> Seq<u32> {
    Seq::new(
        raw.len() / 4,
        |i: int| argb(raw[4 * i], raw[4 * i + 1], raw[4 * i + 2], raw[4 * i + 3]),
    )
}

/// Converts RGBA bytes to 0xAARRGGBB pixels.
pub fn argb_pixels(raw: &[u8]) -> (r: Vec<u32>)
    ensures
        r@ == argb_pixels_of(raw@),
{
    let n = raw.len() / 4;
    let mut out: Vec<u32> = Vec::new();
    let mut i: usize = 0;
    while i < n
        invariant
            n == raw@.len() / 4,
            raw@.len() == raw.len(),
            i <= n,
            out@.len() == i,
            forall|j: int| 0 <= j < i ==> out@[j] == #[trigger] argb_pixels_of(raw@)[j],
        decreases n - i,
    {
        let r = raw[4 * i];
        let g = raw[4 * i + 1];
        let b = raw[4 * i + 2];
        let a = raw[4 * i + 3];
        let p = (a as u32) << 24u32 | (r as u32) << 16u32 | (g as u32) << 8u32 | (b as u32);
        assert(((a as u32) << 24u32 | (r as u32) << 16u32 | (g as u32) << 8u32 | (b as u32)) == (a
            * 0x1000000 + r * 0x10000 + g * 0x100 + b) as u32) by (bit_vector);
        out.push(p);
        i = i + 1;
    }
    assert(out@ =~= argb_pixels_of(raw@));
    out
}

/// Whether decoded RGBA bytes are those of a 16x16 image.
pub open spec fn is_sixteen_square(width: u32, height: u32, raw: Seq<u8>) -> bool {
    width == 16 && height == 16 && raw.len() == 1024
}

/// The palette of a decoded image of `width` x `height` RGBA pixels; `None`
/// unless it is 16x16.
pub fn image_palette(width: u32, height: u32, raw: &[u8]) -> (r: Option<Palette>)
    ensures
        r is Some <==> is_sixteen_square(width, height, raw@),
        r matches Some(p) ==> p matches Palette::Image(v) && v@ == argb_pixels_of(raw@),
{
    if width != 16 || height != 16 || raw.len() != 1024 {
        None
    } else {
        let pixels = argb_pixels(raw);
        Some(Palette::Image(pixels))
    }
}

/// The image crate's decoding of the bytes of a file at `path`, in the
/// format that the path's extension names, as width, height and RGBA bytes
/// row by row; `None` when the extension names no format or the bytes do
/// not decode.
pub uninterp spec fn decoded_rgba(path: Seq<char>, bytes: Seq<u8>) -> Option<(u32, u32, Seq<u8>)>;

/// `ImageFormat::from_path`, `load_from_memory_with_format` and
/// `into_rgba8` (image): what `image::open` does with a file's bytes.
/// The result is the name `decoded_rgba` of the path and the bytes.
#[verifier::external_body]
fn decode_rgba(path: &str, bytes: &[u8]) -> (r: Option<(u32, u32, Vec<u8>)>)
    ensures
        r is Some <==> decoded_rgba(path@, bytes@) is Some,
        r matches Some((w, h, v)) ==> decoded_rgba(path@, bytes@) == Some((w, h, v@)),
{
    let format = match ImageFormat::from_path(path) {
        Ok(f) => f,
        Err(_) => return None,
    };
    match image::load_from_memory_with_format(bytes, format) {
        Ok(img) => {
            let rgba = img.into_rgba8();
            Some((rgba.width(), rgba.height(), rgba.into_raw()))
        },
        Err(_) => None,
    }
}

/// Why an image file gives no palette.
#[derive(Clone, Copy, Debug, PartialEq, Eq, Structural)]
pub enum ImageFileError {
    /// The path names no image format, or the bytes do not decode.
    Undecodable,
    /// The image is not 16x16.
    NotSixteenBySixteen,
}

/// The palette of the image file at `path` whose contents are `bytes`.
pub fn image_file_palette(path: &str, bytes: &[u8]) -> (r: Result<Palette, ImageFileError>)
    ensures
        decoded_rgba(path@, bytes@) is None ==> r == Err::<Palette, ImageFileError>(
            ImageFileError::Undecodable,
        ),
        decoded_rgba(path@, bytes@) matches Some((w, h, raw)) ==> {
            &&& (r is Ok <==> is_sixteen_square(w, h, raw))
            &&& !is_sixteen_square(w, h, raw) ==> r == Err::<Palette, ImageFileError>(
                ImageFileError::NotSixteenBySixteen,
            )
            &&& r matches Ok(p) ==> p matches Palette::Image(v) && v@ == argb_pixels_of(raw)
        },
{
    match decode_rgba(path, bytes) {
        None => Err(ImageFileError::Undecodable),
        Some((w, h, raw)) => match image_palette(w, h, &raw) {
            Some(p) => Ok(p),
            None => Err(ImageFileError::NotSixteenBySixteen),
        },
    }
}

} // verus!
