//! Painting the clock: six hexadecimal digits, each shown as a column of
//! four 16x16-pixel cells, one per bit, most significant bit at the top.
//! A set bit is painted from the foreground palettes, a clear one from the
//! background palettes; each cell takes one palette at random.

use rand::seq::IndexedRandom;
use vstd::endian::{endianness, Endian};
use vstd::prelude::*;

verus! {

broadcast use vstd::slice::group_slice_axioms;

/// Side of one cell, in pixels.
pub const CELL: usize = 16;

/// Number of digits, hence of cell columns.
pub const DIGITS: usize = 6;

/// Number of bits per digit, hence of cell rows.
pub const BITS: usize = 4;

/// Bytes in one row of the frame: 96 pixels of 4 bytes.
pub const ROW_BYTES: usize = 384;

/// Bytes of the whole 96x64 frame.
pub const FRAME_BYTES: usize = 24576;

/// What a cell is painted with: one colour, or a 16x16 image.
#[derive(Clone, Debug)]
pub enum Palette {
    /// A colour as 0xAARRGGBB.
    Color(u32),
    /// 256 colours as 0xAARRGGBB, row by row.
    Image(Vec<u32>),
}

/// A palette that can paint a whole cell: an image holds at least 16x16 pixels.
pub open spec fn palette_wf(p: Palette) -> bool {
    match p {
        Palette::Color(_) => true,
        Palette::Image(v) => v@.len() >= 256,
    }
}

/// Every palette of the sequence can paint a cell.
pub open spec fn palettes_wf(ps: Seq<Palette>) -> bool {
    forall|i: int| 0 <= i < ps.len() ==> #[trigger] palette_wf(ps[i])
}

/// The colour that `p` gives to pixel (`xs`, `ys`) of a cell.
pub open spec fn palette_color(p: Palette, xs: int, ys: int) -> u32 {
    match p {
        Palette::Color(c) => c,
        Palette::Image(v) => v@[xs + ys * 16],
    }
}

/// The bytes of `c`, least significant first.
pub open spec fn le_bytes(c: u32) -> Seq<u8> {
    seq![(c & 0xff) as u8, ((c >> 8) & 0xff) as u8, ((c >> 16) & 0xff) as u8, ((c >> 24) & 0xff) as u8]
}

/// The bytes of `c`, most significant first.
pub open spec fn be_bytes(c: u32) -> Seq<u8> {
    seq![((c >> 24) & 0xff) as u8, ((c >> 16) & 0xff) as u8, ((c >> 8) & 0xff) as u8, (c & 0xff) as u8]
}

/// The bytes of `c` in the byte order of the machine that runs the code
/// (`vstd::endian::endianness`): one order, the same for every colour.
pub open spec fn ne_bytes(c: u32) -> Seq<u8> {
    match endianness() {
        Endian::Little => le_bytes(c),
        Endian::Big => be_bytes(c),
    }
}

/// `u32::to_ne_bytes`: the colour in the machine's byte order.
#[verifier::external_body]
fn native_bytes(c: u32) -> (r: [u8; 4])
    ensures
        r@ == ne_bytes(c),
{
    c.to_ne_bytes()
}

/// The byte offset of pixel (`xs`, `ys`) of cell (`x`, `y`) in the frame.
pub open spec fn pixel_offset(x: int, y: int, xs: int, ys: int) -> int {
    (xs + x * 16) * 4 + (ys + y * 16) * 384
}

/// The byte offset of cell (`x`, `y`)'s first pixel.
pub open spec fn cell_base(x: int, y: int) -> int {
    x * 64 + y * 6144
}

/// Whether byte `k` is one of the bytes that painting cell (`x`, `y`)
/// writes: sixteen runs of 64 bytes, one every 384 bytes from the cell's
/// first pixel.
pub open spec fn in_cell(k: int, x: int, y: int) -> bool {
    let d = k - cell_base(x, y);
    &&& 0 <= d < 6144
    &&& d % 384 < 64
}

/// The buffer reaches the last byte of cell (`x`, `y`).
pub open spec fn cell_fits(len: int, x: int, y: int) -> bool {
    pixel_offset(x, y, 15, 15) + 4 <= len
}

/// The four bytes at `off` hold colour `c` in the machine's byte order.
pub open spec fn pixel_holds(buf: Seq<u8>, off: int, c: u32) -> bool {
    buf.subrange(off, off + 4) == ne_bytes(c)
}

/// Every pixel of cell (`x`, `y`) holds the colour that `p` gives it.
pub open spec fn cell_painted(buf: Seq<u8>, x: int, y: int, p: Palette) -> bool {
    forall|xs: int, ys: int|
        0 <= xs < 16 && 0 <= ys < 16 ==> pixel_holds(
            buf,
            #[trigger] pixel_offset(x, y, xs, ys),
            palette_color(p, xs, ys),
        )
}

/// Cell (`x`, `y`) is painted with one of the palettes `ps`.
pub open spec fn cell_shows(buf: Seq<u8>, x: int, y: int, ps: Seq<Palette>) -> bool {
    exists|i: int| 0 <= i < ps.len() && #[trigger] cell_painted(buf, x, y, ps[i])
}

/// Bit `row` of the low nibble of `num`, counting from the most significant.
pub open spec fn nibble_bit(num: u8, row: int) -> u8 {
    if row == 0 {
        (num >> 3u8) & 1
    } else if row == 1 {
        (num >> 2u8) & 1
    } else if row == 2 {
        (num >> 1u8) & 1
    } else {
        num & 1
    }
}

/// The palettes that paint cell (`x`, `y`) for `digits`.
pub open spec fn cell_palettes(
    digits: Seq<u8>,
    x: int,
    y: int,
    fg: Seq<Palette>,
    bg: Seq<Palette>,
) -> Seq<Palette> {
    if nibble_bit(digits[x], y) == 1 {
        fg
    } else {
        bg
    }
}

/// Palettes that can paint: at least one, and every image of them can paint a cell.
pub open spec fn palettes_usable(ps: Seq<Palette>) -> bool {
    ps.len() > 0 && palettes_wf(ps)
}

/// Some cell of `digits` shows a set bit, so the foreground palettes are used.
pub open spec fn uses_fg(digits: Seq<u8>) -> bool {
    exists|x: int, y: int| 0 <= x < 6 && 0 <= y < 4 && #[trigger] nibble_bit(digits[x], y) == 1
}

/// Some cell of `digits` shows a clear bit, so the background palettes are used.
pub open spec fn uses_bg(digits: Seq<u8>) -> bool {
    exists|x: int, y: int| 0 <= x < 6 && 0 <= y < 4 && #[trigger] nibble_bit(digits[x], y) == 0
}

/// The four bits of the low nibble of `num`, most significant first.
pub fn mkmask(num: u8) -> (r: [u8; 4])
    ensures
        forall|i: int| 0 <= i < 4 ==> r@[i] == #[trigger] nibble_bit(num, i),
        forall|i: int| 0 <= i < 4 ==> r@[i] <= 1,
        r@[0] * 8 + r@[1] * 4 + r@[2] * 2 + r@[3] == num % 16,
{
    let r = [(num >> 3u8) & 0x1, (num >> 2u8) & 0x1, (num >> 1u8) & 0x1, num & 0x1];
    proof {
        lemma_column_reads_back(num);
        assert(nibble_bit(num, 0) <= 1 && nibble_bit(num, 1) <= 1 && nibble_bit(num, 2) <= 1
            && nibble_bit(num, 3) <= 1);
    }
    assert(r@[0] == nibble_bit(num, 0));
    assert(r@[1] == nibble_bit(num, 1));
    assert(r@[2] == nibble_bit(num, 2));
    assert(r@[3] == nibble_bit(num, 3));
    r
}

/// The four cells of a column, read top to bottom as binary digits, give
/// back the low nibble of the column's digit.
pub proof fn lemma_column_reads_back(num: u8)
    ensures
        forall|row: int| 0 <= row < 4 ==> #[trigger] nibble_bit(num, row) <= 1,
        nibble_bit(num, 0) * 8 + nibble_bit(num, 1) * 4 + nibble_bit(num, 2) * 2 + nibble_bit(num, 3)
            == num % 16,
{
    assert(((num >> 3u8) & 1) <= 1 && ((num >> 2u8) & 1) <= 1 && ((num >> 1u8) & 1) <= 1 && (num
        & 1) <= 1) by (bit_vector);
    assert(((num >> 3u8) & 1) * 8 + ((num >> 2u8) & 1) * 4 + ((num >> 1u8) & 1) * 2 + (num & 1)
        == num % 16) by (bit_vector);
}

/// Only the low nibble of a digit is shown: digits that agree modulo 16
/// have their cells painted from the same palettes.
pub proof fn lemma_only_low_nibble_shown(
    d1: Seq<u8>,
    d2: Seq<u8>,
    fg: Seq<Palette>,
    bg: Seq<Palette>,
)
    requires
        d1.len() == 6,
        d2.len() == 6,
        forall|i: int| 0 <= i < 6 ==> #[trigger] d1[i] % 16 == d2[i] % 16,
    ensures
        forall|x: int, y: int|
            0 <= x < 6 && 0 <= y < 4 ==> #[trigger] cell_palettes(d1, x, y, fg, bg)
                == cell_palettes(d2, x, y, fg, bg),
{
    assert forall|x: int, y: int| 0 <= x < 6 && 0 <= y < 4 implies #[trigger] cell_palettes(
        d1,
        x,
        y,
        fg,
        bg,
    ) == cell_palettes(d2, x, y, fg, bg) by {
        let a = d1[x];
        let b = d2[x];
        assert(d1[x] % 16 == d2[x] % 16);
        assert(a % 16 == b % 16 ==> ((a >> 3u8) & 1) == ((b >> 3u8) & 1) && ((a >> 2u8) & 1) == ((b
            >> 2u8) & 1) && ((a >> 1u8) & 1) == ((b >> 1u8) & 1) && (a & 1) == (b & 1))
            by (bit_vector);
    }
}

/// Every byte of the 96x64 frame is one byte of one pixel of one cell.
proof fn lemma_frame_byte(k: int) -> (r: (int, int, int, int, int))
    requires
        0 <= k < 24576,
    ensures
        0 <= r.0 < 6,
        0 <= r.1 < 4,
        0 <= r.2 < 16,
        0 <= r.3 < 16,
        0 <= r.4 < 4,
        k == pixel_offset(r.0, r.1, r.2, r.3) + r.4,
{
    let q = k / 384;
    let rem = k % 384;
    assert(k == 384 * q + rem && 0 <= rem < 384 && 0 <= q < 64) by (nonlinear_arith)
        requires
            0 <= k < 24576,
            q == k / 384,
            rem == k % 384,
    ;
    let x = rem / 64;
    let m = rem % 64;
    assert(rem == 64 * x + m && 0 <= m < 64 && 0 <= x < 6) by (nonlinear_arith)
        requires
            0 <= rem < 384,
            x == rem / 64,
            m == rem % 64,
    ;
    let xs = m / 4;
    let c = m % 4;
    assert(m == 4 * xs + c && 0 <= c < 4 && 0 <= xs < 16) by (nonlinear_arith)
        requires
            0 <= m < 64,
            xs == m / 4,
            c == m % 4,
    ;
    let y = q / 16;
    let ys = q % 16;
    assert(q == 16 * y + ys && 0 <= ys < 16 && 0 <= y < 4) by (nonlinear_arith)
        requires
            0 <= q < 64,
            y == q / 16,
            ys == q % 16,
    ;
    (x, y, xs, ys, c)
}

/// The frame that `draw_digits` leaves, with one foreground and one
/// background palette, depends only on the low nibbles of the digits:
/// digits equal modulo 16 paint the same bytes, byte for byte.
pub proof fn lemma_same_frame(
    start: Seq<u8>,
    a: Seq<u8>,
    b: Seq<u8>,
    d1: Seq<u8>,
    d2: Seq<u8>,
    fg: Palette,
    bg: Palette,
)
    requires
        d1.len() == 6,
        d2.len() == 6,
        forall|i: int| 0 <= i < 6 ==> #[trigger] d1[i] % 16 == d2[i] % 16,
        start.len() >= 24576,
        a.len() == start.len(),
        b.len() == start.len(),
        forall|x: int, y: int|
            0 <= x < 6 && 0 <= y < 4 ==> #[trigger] cell_shows(
                a,
                x,
                y,
                cell_palettes(d1, x, y, seq![fg], seq![bg]),
            ),
        forall|x: int, y: int|
            0 <= x < 6 && 0 <= y < 4 ==> #[trigger] cell_shows(
                b,
                x,
                y,
                cell_palettes(d2, x, y, seq![fg], seq![bg]),
            ),
        forall|k: int| 24576 <= k < start.len() ==> a[k] == start[k],
        forall|k: int| 24576 <= k < start.len() ==> b[k] == start[k],
    ensures
        a == b,
{
    lemma_only_low_nibble_shown(d1, d2, seq![fg], seq![bg]);
    assert forall|k: int| 0 <= k < a.len() implies a[k] == b[k] by {
        if k < 24576 {
            let (x, y, xs, ys, c) = lemma_frame_byte(k);
            let ps = cell_palettes(d1, x, y, seq![fg], seq![bg]);
            assert(ps == cell_palettes(d2, x, y, seq![fg], seq![bg]));
            assert(ps.len() == 1);
            assert(cell_shows(a, x, y, ps));
            assert(cell_shows(b, x, y, ps));
            assert(cell_painted(a, x, y, ps[0]));
            assert(cell_painted(b, x, y, ps[0]));
            let off = pixel_offset(x, y, xs, ys);
            assert(pixel_holds(a, off, palette_color(ps[0], xs, ys)));
            assert(pixel_holds(b, off, palette_color(ps[0], xs, ys)));
            lemma_pixel_in_cell(x, y, xs, ys, 3);
            assert(a.subrange(off, off + 4)[c] == a[k]);
            assert(b.subrange(off, off + 4)[c] == b[k]);
        }
    }
    assert(a =~= b);
}

/// Pixel bytes of cell (`x`, `y`) lie in that cell, and in no other.
proof fn lemma_pixel_in_cell(x: int, y: int, xs: int, ys: int, c: int)
    requires
        0 <= x,
        0 <= y,
        0 <= xs < 16,
        0 <= ys < 16,
        0 <= c < 4,
    ensures
        in_cell(pixel_offset(x, y, xs, ys) + c, x, y),
        pixel_offset(x, y, xs, ys) + c < pixel_offset(x, y, 15, 15) + 4,
        0 <= pixel_offset(x, y, xs, ys),
{
    let d = pixel_offset(x, y, xs, ys) + c - cell_base(x, y);
    let r = xs * 4 + c;
    assert(d == ys * 384 + r);
    assert(0 <= r < 64);
    assert(d % 384 == r) by (nonlinear_arith)
        requires
            d == ys * 384 + r,
            0 <= r < 384,
            0 <= ys,
    ;
}

/// Bytes after the 96x64 frame lie in none of its 24 cells.
proof fn lemma_after_frame(k: int, x: int, y: int)
    requires
        0 <= x < 6,
        0 <= y < 4,
        24576 <= k,
    ensures
        !in_cell(k, x, y),
{
    let d = k - cell_base(x, y);
    if 0 <= d < 6144 {
        assert(d >= 5760 + 384 - 64 * x);
        assert(d % 384 == d - 5760) by (nonlinear_arith)
            requires
                5760 <= d < 6144,
        ;
    }
}

/// A byte lies in at most one cell.
proof fn lemma_cells_disjoint(k: int, x: int, y: int, x2: int, y2: int)
    requires
        0 <= x < 6,
        0 <= y < 4,
        0 <= x2 < 6,
        0 <= y2 < 4,
        in_cell(k, x, y),
        in_cell(k, x2, y2),
    ensures
        x == x2,
        y == y2,
{
    let d1 = k - cell_base(x, y);
    let d2 = k - cell_base(x2, y2);
    let q1 = d1 / 384;
    let q2 = d2 / 384;
    let r1 = d1 % 384;
    let r2 = d2 % 384;
    assert(d1 == 384 * q1 + r1 && 0 <= q1 < 16) by (nonlinear_arith)
        requires
            0 <= d1 < 6144,
            q1 == d1 / 384,
            r1 == d1 % 384,
    ;
    assert(d2 == 384 * q2 + r2 && 0 <= q2 < 16) by (nonlinear_arith)
        requires
            0 <= d2 < 6144,
            q2 == d2 / 384,
            r2 == d2 % 384,
    ;
    let a1 = 16 * y + q1;
    let a2 = 16 * y2 + q2;
    let b1 = 64 * x + r1;
    let b2 = 64 * x2 + r2;
    assert(384 * a1 + b1 == 384 * a2 + b2);
    assert(a1 == a2) by (nonlinear_arith)
        requires
            384 * a1 + b1 == 384 * a2 + b2,
            0 <= b1 < 384,
            0 <= b2 < 384,
    ;
    assert(x == x2) by (nonlinear_arith)
        requires
            64 * x + r1 == 64 * x2 + r2,
            0 <= r1 < 64,
            0 <= r2 < 64,
    ;
    assert(y == y2) by (nonlinear_arith)
        requires
            16 * y + q1 == 16 * y2 + q2,
            0 <= q1 < 16,
            0 <= q2 < 16,
    ;
}

/// A pixel keeps its colour when its four bytes are kept.
proof fn lemma_pixel_kept(a: Seq<u8>, b: Seq<u8>, off: int, c: u32)
    requires
        0 <= off,
        off + 4 <= a.len(),
        a.len() == b.len(),
        pixel_holds(a, off, c),
        forall|k: int| off <= k < off + 4 ==> a[k] == b[k],
    ensures
        pixel_holds(b, off, c),
{
    assert(a.subrange(off, off + 4) =~= b.subrange(off, off + 4));
}

/// A painted cell stays painted when the bytes of that cell are kept.
proof fn lemma_cell_kept(a: Seq<u8>, b: Seq<u8>, x: int, y: int, ps: Seq<Palette>)
    requires
        0 <= x,
        0 <= y,
        a.len() == b.len(),
        cell_fits(a.len() as int, x, y),
        cell_shows(a, x, y, ps),
        forall|k: int| 0 <= k < a.len() && in_cell(k, x, y) ==> a[k] == b[k],
    ensures
        cell_shows(b, x, y, ps),
{
    let i = choose|i: int| 0 <= i < ps.len() && #[trigger] cell_painted(a, x, y, ps[i]);
    assert forall|xs: int, ys: int| 0 <= xs < 16 && 0 <= ys < 16 implies pixel_holds(
        b,
        #[trigger] pixel_offset(x, y, xs, ys),
        palette_color(ps[i], xs, ys),
    ) by {
        let off = pixel_offset(x, y, xs, ys);
        assert forall|k: int| off <= k < off + 4 implies a[k] == b[k] by {
            lemma_pixel_in_cell(x, y, xs, ys, k - off);
        }
        lemma_pixel_in_cell(x, y, xs, ys, 3);
        lemma_pixel_kept(a, b, off, palette_color(ps[i], xs, ys));
    }
    assert(cell_painted(b, x, y, ps[i]));
}

/// Writes colour `c` at byte `start`, in the machine's byte order.
fn write_pixel(v: &mut [u8], start: usize, c: u32)
    requires
        start + 4 <= old(v)@.len(),
    ensures
        final(v)@.len() == old(v)@.len(),
        pixel_holds(final(v)@, start as int, c),
        forall|k: int|
            0 <= k < old(v)@.len() && (k < start || start + 4 <= k) ==> final(v)@[k] == old(v)@[k],
{
    let b = native_bytes(c);
    v[start] = b[0];
    v[start + 1] = b[1];
    v[start + 2] = b[2];
    v[start + 3] = b[3];
    assert(v@.subrange(start as int, start + 4) =~= b@);
}

/// `IndexedRandom::choose` with the thread's generator: one palette of a
/// non-empty slice, picked at random. Which one is not stated.
#[verifier::external_body]
fn choose_palette<'a>(palette: &'a [Palette]) -> (r: &'a Palette)
    requires
        palette@.len() > 0,
    ensures
        palette@.contains(*r),
{
    palette.choose(&mut rand::rng()).unwrap()
}

/// Paints cell (`x`, `y`) of the frame `v` with one palette of `palette`,
/// chosen at random, and leaves every byte outside that cell as it was.
pub fn draw_point(v: &mut [u8], x: usize, y: usize, palette: &[Palette])
    requires
        cell_fits(old(v)@.len() as int, x as int, y as int),
        palette@.len() > 0,
        palettes_wf(palette@),
    ensures
        final(v)@.len() == old(v)@.len(),
        cell_shows(final(v)@, x as int, y as int, palette@),
        forall|k: int|
            0 <= k < old(v)@.len() && !in_cell(k, x as int, y as int) ==> final(v)@[k] == old(
                v,
            )@[k],
{
    let ghost start_v = v@;
    let n = v.len();
    assert(start_v.len() == n);
    let chosen = choose_palette(palette);
    let ghost ci = choose|i: int| 0 <= i < palette@.len() && palette@[i] == *chosen;
    assert(0 <= ci < palette@.len() && palette@[ci] == *chosen);
    assert(palette_wf(palette@[ci]));
    let mut ys: usize = 0;
    while ys < CELL
        invariant
            cell_fits(start_v.len() as int, x as int, y as int),
            start_v.len() == old(v)@.len(),
            start_v.len() <= usize::MAX,
            ys <= 16,
            0 <= ci < palette@.len(),
            palette@[ci] == *chosen,
            palette_wf(*chosen),
            v@.len() == start_v.len(),
            forall|k: int|
                0 <= k < start_v.len() && !in_cell(k, x as int, y as int) ==> v@[k] == start_v[k],
            forall|xs2: int, ys2: int|
                0 <= xs2 < 16 && 0 <= ys2 < ys ==> pixel_holds(
                    v@,
                    #[trigger] pixel_offset(x as int, y as int, xs2, ys2),
                    palette_color(*chosen, xs2, ys2),
                ),
        decreases 16 - ys,
    {
        let mut xs: usize = 0;
        while xs < CELL
            invariant
                cell_fits(start_v.len() as int, x as int, y as int),
                start_v.len() == old(v)@.len(),
                start_v.len() <= usize::MAX,
                ys < 16,
                xs <= 16,
                palette_wf(*chosen),
                v@.len() == start_v.len(),
                forall|k: int|
                    0 <= k < start_v.len() && !in_cell(k, x as int, y as int) ==> v@[k]
                        == start_v[k],
                forall|xs2: int, ys2: int|
                    (0 <= xs2 < 16 && 0 <= ys2 < ys) || (0 <= xs2 < xs && ys2 == ys)
                        ==> pixel_holds(
                        v@,
                        #[trigger] pixel_offset(x as int, y as int, xs2, ys2),
                        palette_color(*chosen, xs2, ys2),
                    ),
            decreases 16 - xs,
        {
            let start = (xs + x * 16) * 4 + (ys + y * 16) * 64 * 6;
            let color = match chosen {
                Palette::Color(c) => *c,
                Palette::Image(image) => image[xs + ys * 16],
            };
            let ghost before = v@;
            proof {
                lemma_pixel_in_cell(x as int, y as int, xs as int, ys as int, 3);
            }
            write_pixel(v, start, color);
            proof {
                assert(start == pixel_offset(x as int, y as int, xs as int, ys as int));
                assert forall|k: int|
                    0 <= k < start_v.len() && !in_cell(
                        k,
                        x as int,
                        y as int,
                    ) implies v@[k] == start_v[k] by {
                    if start <= k < start + 4 {
                        lemma_pixel_in_cell(x as int, y as int, xs as int, ys as int, k - start);
                    }
                }
                assert forall|xs2: int, ys2: int|
                    (0 <= xs2 < 16 && 0 <= ys2 < ys) || (0 <= xs2 < xs + 1 && ys2 == ys)
                        implies pixel_holds(
                    v@,
                    #[trigger] pixel_offset(x as int, y as int, xs2, ys2),
                    palette_color(*chosen, xs2, ys2),
                ) by {
                    if xs2 == xs && ys2 == ys {
                    } else {
                        let off = pixel_offset(x as int, y as int, xs2, ys2);
                        lemma_pixel_in_cell(x as int, y as int, xs2, ys2, 3);
                        lemma_pixel_kept(before, v@, off, palette_color(*chosen, xs2, ys2));
                    }
                }
            }
            xs = xs + 1;
        }
        ys = ys + 1;
    }
    assert(cell_painted(v@, x as int, y as int, palette@[ci]));
}

/// Whether every palette of `ps` can paint a cell.
fn all_wf(ps: &[Palette]) -> (r: bool)
    ensures
        r == palettes_wf(ps@),
{
    let mut i: usize = 0;
    while i < ps.len()
        invariant
            i <= ps@.len(),
            forall|j: int| 0 <= j < i ==> #[trigger] palette_wf(ps@[j]),
        decreases ps@.len() - i,
    {
        match &ps[i] {
            Palette::Color(_) => {},
            Palette::Image(v) => {
                if v.len() < 256 {
                    assert(!palette_wf(ps@[i as int]));
                    return false;
                }
            },
        }
        i = i + 1;
    }
    true
}

/// The two sets of palettes, foreground for set bits and background for
/// clear ones.
pub struct Painter {
    fg: Vec<Palette>,
    bg: Vec<Palette>,
}

impl Painter {
    /// The foreground palettes.
    pub closed spec fn fg(&self) -> Seq<Palette> {
        self.fg@
    }

    /// The background palettes.
    pub closed spec fn bg(&self) -> Seq<Palette> {
        self.bg@
    }

    /// A painter with the given palettes.
    pub fn new(fg: Vec<Palette>, bg: Vec<Palette>) -> (p: Self)
        ensures
            p.fg() == fg@,
            p.bg() == bg@,
    {
        Self { fg, bg }
    }

    /// Whether the painter can paint: both sets of palettes are non-empty and
    /// every image in them holds at least 16x16 pixels.
    pub fn can_draw(&self, digits: [u8; 6]) -> (r: bool)
        ensures
            r == ((uses_fg(digits@) ==> palettes_usable(self.fg())) && (uses_bg(digits@)
                ==> palettes_usable(self.bg()))),
    {
        let mut need_fg = false;
        let mut need_bg = false;
        let mut idx: usize = 0;
        while idx < DIGITS
            invariant
                idx <= 6,
                need_fg == exists|x: int, y: int|
                    0 <= x < idx && 0 <= y < 4 && #[trigger] nibble_bit(digits@[x], y) == 1,
                need_bg == exists|x: int, y: int|
                    0 <= x < idx && 0 <= y < 4 && #[trigger] nibble_bit(digits@[x], y) == 0,
            decreases 6 - idx,
        {
            let mask = mkmask(digits[idx]);
            let mut idy: usize = 0;
            while idy < BITS
                invariant
                    idx < 6,
                    idy <= 4,
                    forall|i: int| 0 <= i < 4 ==> mask@[i] == #[trigger] nibble_bit(digits@[idx as int], i),
                    need_fg == exists|x: int, y: int|
                        ((0 <= x < idx && 0 <= y < 4) || (x == idx && 0 <= y < idy))
                            && #[trigger] nibble_bit(digits@[x], y) == 1,
                    need_bg == exists|x: int, y: int|
                        ((0 <= x < idx && 0 <= y < 4) || (x == idx && 0 <= y < idy))
                            && #[trigger] nibble_bit(digits@[x], y) == 0,
                decreases 4 - idy,
            {
                assert(mask@[idy as int] == nibble_bit(digits@[idx as int], idy as int));
                if mask[idy] == 1 {
                    need_fg = true;
                }
                if mask[idy] == 0 {
                    need_bg = true;
                }
                idy = idy + 1;
            }
            idx = idx + 1;
        }
        let fg_ok = self.fg.len() > 0 && all_wf(&self.fg);
        let bg_ok = self.bg.len() > 0 && all_wf(&self.bg);
        (!need_fg || fg_ok) && (!need_bg || bg_ok)
    }

    /// Paints the six digits into the 96x64 frame `v`: cell (`x`, `y`) shows
    /// bit `y` (from the top, most significant first) of `digits[x]`, from a
    /// foreground palette when set and a background one when clear. Bytes
    /// after the frame are left as they were.
    pub fn draw_digits(&self, v: &mut [u8], digits: [u8; 6])
        requires
            old(v)@.len() >= FRAME_BYTES,
            uses_fg(digits@) ==> palettes_usable(self.fg()),
            uses_bg(digits@) ==> palettes_usable(self.bg()),
        ensures
            final(v)@.len() == old(v)@.len(),
            forall|x: int, y: int|
                0 <= x < 6 && 0 <= y < 4 ==> #[trigger] cell_shows(
                    final(v)@,
                    x,
                    y,
                    cell_palettes(digits@, x, y, self.fg(), self.bg()),
                ),
            forall|k: int|
                FRAME_BYTES <= k < old(v)@.len() ==> final(v)@[k] == old(v)@[k],
    {
        let ghost start_v = v@;
        let mut idx: usize = 0;
        while idx < DIGITS
            invariant
                idx <= 6,
                v@.len() == start_v.len(),
                start_v.len() >= 24576,
                uses_fg(digits@) ==> palettes_usable(self.fg()),
                uses_bg(digits@) ==> palettes_usable(self.bg()),
                forall|k: int| 24576 <= k < start_v.len() ==> v@[k] == start_v[k],
                forall|x: int, y: int|
                    0 <= x < idx && 0 <= y < 4 ==> #[trigger] cell_shows(
                        v@,
                        x,
                        y,
                        cell_palettes(digits@, x, y, self.fg(), self.bg()),
                    ),
            decreases 6 - idx,
        {
            let mask = mkmask(digits[idx]);
            let mut idy: usize = 0;
            while idy < BITS
                invariant
                    idx < 6,
                    idy <= 4,
                    forall|i: int| 0 <= i < 4 ==> mask@[i] == #[trigger] nibble_bit(digits@[idx as int], i),
                    forall|i: int| 0 <= i < 4 ==> mask@[i] <= 1,
                    v@.len() == start_v.len(),
                    start_v.len() >= 24576,
                    uses_fg(digits@) ==> palettes_usable(self.fg()),
                    uses_bg(digits@) ==> palettes_usable(self.bg()),
                    forall|k: int| 24576 <= k < start_v.len() ==> v@[k] == start_v[k],
                    forall|x: int, y: int|
                        (0 <= x < idx && 0 <= y < 4) || (x == idx && 0 <= y < idy)
                            ==> #[trigger] cell_shows(
                            v@,
                            x,
                            y,
                            cell_palettes(digits@, x, y, self.fg(), self.bg()),
                        ),
                decreases 4 - idy,
            {
                let ghost before = v@;
                let b = mask[idy];
                assert(b == nibble_bit(digits@[idx as int], idy as int));
                assert(b == 1 ==> uses_fg(digits@));
                assert(b == 0 ==> uses_bg(digits@));
                if b == 1 {
                    draw_point(v, idx, idy, &self.fg);
                } else if b == 0 {
                    draw_point(v, idx, idy, &self.bg);
                }
                proof {
                    assert forall|k: int| 24576 <= k < start_v.len() implies v@[k] == start_v[k] by {
                        lemma_after_frame(k, idx as int, idy as int);
                    }
                    assert forall|x: int, y: int|
                        (0 <= x < idx && 0 <= y < 4) || (x == idx && 0 <= y < idy + 1)
                            implies #[trigger] cell_shows(
                            v@,
                            x,
                            y,
                            cell_palettes(digits@, x, y, self.fg(), self.bg()),
                        ) by {
                        if x == idx && y == idy {
                        } else {
                            assert forall|k: int|
                                0 <= k < before.len() && in_cell(k, x, y) implies before[k]
                                == v@[k] by {
                                if in_cell(k, idx as int, idy as int) {
                                    lemma_cells_disjoint(k, x, y, idx as int, idy as int);
                                }
                            }
                            lemma_cell_kept(
                                before,
                                v@,
                                x,
                                y,
                                cell_palettes(digits@, x, y, self.fg(), self.bg()),
                            );
                        }
                    }
                }
                idy = idy + 1;
            }
            idx = idx + 1;
        }
    }
}

} // verus!
