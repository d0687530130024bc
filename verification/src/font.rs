//! The 8x16 bitmap font: one 16-byte glyph per character code, one byte per
//! row, the leftmost pixel in the top bit.
use vstd::prelude::*;
use crate::graphic::PixelColor;

verus! {

/// Bytes in a font table of 256 glyphs.
pub const FONT_BYTES: usize = 4096;

/// Whether pixel `dx` of a glyph row is set.
pub open spec fn glyph_bit(row: u8, dx: int) -> bool {
    row & (0x80u8 >> dx as u8) != 0
}

proof fn lemma_glyph_bit(row: u8, dx: u8)
    requires
        dx < 8,
    ensures
        ((row << dx) & 0x80u8 != 0) == glyph_bit(row, dx as int),
{
    assert(dx < 8 ==> (((row << dx) & 0x80u8 != 0) == (row & (0x80u8 >> dx) != 0))) by (bit_vector);
}

/// The 16 rows of the glyph of `c`, or `None` past the last code.
pub fn get_font(font: &[u8], c: usize) -> (r: Option<Vec<u8>>)
    requires
        font@.len() == FONT_BYTES,
    ensures
        c < 256 ==> (r matches Some(g) && g@ == font@.subrange(c as int * 16, c as int * 16 + 16)),
        c >= 256 ==> r is None,
{
    if c < 256 {
        let index = c * 16;
        let mut glyph: Vec<u8> = Vec::new();
        let mut i: usize = 0;
        while i < 16
            invariant
                font@.len() == FONT_BYTES,
                index == c * 16,
                c < 256,
                i <= 16,
                glyph@ == font@.subrange(index as int, index + i),
            decreases 16 - i,
        {
            glyph.push(font[index + i]);
            i = i + 1;
            proof {
                assert(glyph@ =~= font@.subrange(index as int, index + i));
            }
        }
        Some(glyph)
    } else {
        None
    }
}

/// The pixel writes that draw glyph row `dy` column `dx` at `(x, y)`.
pub open spec fn glyph_pixel(glyph: Seq<u8>, x: int, y: int, dy: int, dx: int, foreground: PixelColor, background: PixelColor) -> (usize, usize, PixelColor) {
    ((x + dx) as usize, (y + dy) as usize, if glyph_bit(glyph[dy], dx) { foreground } else { background })
}

/// The 128 pixels that draw character `c` with its top-left corner at
/// `(x, y)`, row by row: set bits in the foreground colour, the others in
/// the background colour.
pub fn write_ascii(font: &[u8], x: u64, y: u64, c: u8, foreground: PixelColor, background: PixelColor) -> (r: Vec<(usize, usize, PixelColor)>)
    requires
        font@.len() == FONT_BYTES,
        x + 8 <= usize::MAX,
        y + 16 <= usize::MAX,
    ensures
        r@.len() == 128,
        forall|dy: int, dx: int| 0 <= dy < 16 && 0 <= dx < 8 ==> #[trigger] r@[dy * 8 + dx] == glyph_pixel(
            font@.subrange(c as int * 16, c as int * 16 + 16), x as int, y as int, dy, dx, foreground, background),
{
    let mut pixels: Vec<(usize, usize, PixelColor)> = Vec::new();
    let font_opt = get_font(font, c as usize);
    let glyph = match font_opt {
        Some(g) => g,
        None => Vec::new(),
    };
    let ghost g = font@.subrange(c as int * 16, c as int * 16 + 16);
    let mut dy: usize = 0;
    while dy < 16
        invariant
            glyph@ == g,
            g.len() == 16,
            x + 8 <= usize::MAX,
            y + 16 <= usize::MAX,
            dy <= 16,
            pixels@.len() == dy * 8,
            forall|j: int, i: int| 0 <= j < dy && 0 <= i < 8 ==> #[trigger] pixels@[j * 8 + i] == glyph_pixel(
                g, x as int, y as int, j, i, foreground, background),
        decreases 16 - dy,
    {
        let mut dx: usize = 0;
        while dx < 8
            invariant
                glyph@ == g,
                g.len() == 16,
                x + 8 <= usize::MAX,
                y + 16 <= usize::MAX,
                dy < 16,
                dx <= 8,
                pixels@.len() == dy * 8 + dx,
                forall|j: int, i: int| 0 <= j < dy && 0 <= i < 8 ==> #[trigger] pixels@[j * 8 + i] == glyph_pixel(
                    g, x as int, y as int, j, i, foreground, background),
                forall|i: int| 0 <= i < dx ==> #[trigger] pixels@[dy * 8 + i] == glyph_pixel(
                    g, x as int, y as int, dy as int, i, foreground, background),
            decreases 8 - dx,
        {
            proof {
                lemma_glyph_bit(glyph@[dy as int], dx as u8);
            }
            let color = if (glyph[dy] << (dx as u8)) & 0x80 != 0 { foreground } else { background };
            let ghost before = pixels@;
            pixels.push((x as usize + dx, y as usize + dy, color));
            proof {
                assert forall|j: int, i: int| 0 <= j < dy && 0 <= i < 8 implies #[trigger] pixels@[j * 8 + i] == glyph_pixel(
                    g, x as int, y as int, j, i, foreground, background) by {
                    assert(j * 8 + i < dy * 8) by (nonlinear_arith)
                        requires
                            0 <= j < dy,
                            0 <= i < 8,
                    ;
                    assert(pixels@[j * 8 + i] == before[j * 8 + i]);
                }
            }
            dx = dx + 1;
        }
        dy = dy + 1;
    }
    pixels
}

} // verus!
