use kernel::boot::{FrameBufferConfig, PixelFormat};
use kernel::console::{Console, ConsoleDraw, COLUMNS, ROWS};
use kernel::font::{get_font, write_ascii, FONT_BYTES};
use kernel::graphic::{GraphicWriter, PixelColor};

#[test]
fn pixel_words() {
    let c = PixelColor::new(0x11, 0x22, 0x33);
    assert_eq!(c.as_rgbx(), 0x0033_2211);
    assert_eq!(c.as_bgrx(), 0x0011_2233);
    assert_eq!(c.as_u32(PixelFormat::RGBReserved8), 0x0033_2211);
    assert_eq!(c.as_u32(PixelFormat::BGRReserved8), 0x0011_2233);
}

#[test]
fn colour_read_back_swaps_red_and_blue() {
    let c = PixelColor(0x11, 0x22, 0x33);
    for f in [PixelFormat::RGBReserved8, PixelFormat::BGRReserved8] {
        assert_eq!(PixelColor::from_u32(c.as_u32(f), f), PixelColor(0x33, 0x22, 0x11));
    }
    let grey = PixelColor(0x40, 0x80, 0x40);
    assert_eq!(PixelColor::from_u32(grey.as_u32(PixelFormat::RGBReserved8), PixelFormat::RGBReserved8), grey);
    assert_eq!(PixelColor::from_u32(0x00AA_BBCC, PixelFormat::RGBReserved8), PixelColor(0xAA, 0xBB, 0xCC));
    assert_eq!(PixelColor::from_u32(0x00AA_BBCC, PixelFormat::BGRReserved8), PixelColor(0xCC, 0xBB, 0xAA));
}

fn writer() -> GraphicWriter {
    GraphicWriter::new(FrameBufferConfig::new(600, 800, 832, 0, PixelFormat::BGRReserved8))
}

#[test]
fn pixel_positions() {
    let w = writer();
    let red = PixelColor(255, 0, 0);
    assert_eq!(w.write(10, 20, red), Some((10 + 832 * 20, 0x00FF_0000)));
    // drawn when x is below the height or y below the width
    assert_eq!(w.write(700, 5, red), Some((700 + 832 * 5, 0x00FF_0000)));
    assert_eq!(w.write(5, 900, red), Some((5 + 832 * 900, 0x00FF_0000)));
    assert_eq!(w.write(700, 900, red), None);
}

#[test]
fn pixel_runs() {
    let w = writer();
    let buf = [0u32; 20];
    assert_eq!(w.write_buf(590, 5, &buf), Some((590 + 832 * 5, 10)));
    assert_eq!(w.write_buf(0, 5, &buf), Some((832 * 5, 20)));
    assert_eq!(w.write_buf(0, 800, &buf), None);
}

fn font() -> Vec<u8> {
    let mut f = vec![0u8; FONT_BYTES];
    f[b'A' as usize * 16] = 0x81;
    f[b'A' as usize * 16 + 15] = 0x18;
    f
}

#[test]
fn glyph_lookup() {
    let f = font();
    let g = get_font(&f, b'A' as usize).unwrap();
    assert_eq!(g.len(), 16);
    assert_eq!(g[0], 0x81);
    assert_eq!(g[15], 0x18);
    assert_eq!(get_font(&f, 255).unwrap(), vec![0u8; 16]);
    assert_eq!(get_font(&f, 256), None);
}

#[test]
fn glyph_pixels() {
    let f = font();
    let fg = PixelColor(1, 1, 1);
    let bg = PixelColor(0, 0, 0);
    let p = write_ascii(&f, 100, 200, b'A', fg, bg);
    assert_eq!(p.len(), 128);
    assert_eq!(p[0], (100, 200, fg));
    assert_eq!(p[1], (101, 200, bg));
    assert_eq!(p[7], (107, 200, fg));
    assert_eq!(p[15 * 8 + 3], (103, 215, fg));
    assert_eq!(p[15 * 8 + 4], (104, 215, fg));
    assert_eq!(p[15 * 8 + 5], (105, 215, bg));
    assert_eq!(p.iter().filter(|q| q.2 == fg).count(), 4);
}

fn glyph(x: u64, y: u64, c: u8) -> ConsoleDraw {
    ConsoleDraw::Glyph { x, y, c }
}

#[test]
fn console_writes_and_breaks_lines() {
    let mut con = Console::new(PixelColor(0, 0, 0), PixelColor(255, 255, 255));
    let d = con.put_string(b"Hi\n", false);
    assert_eq!(d, vec![glyph(0, 0, b'H'), glyph(8, 0, b'i')]);
    assert_eq!(&con.buffer[..2], b"Hi");
    assert_eq!((con.cursor_row, con.cursor_column), (1, 0));
    // anything but printable ASCII shows as a filled square
    let d = con.put_string(&[0x07], false);
    assert_eq!(d, vec![glyph(0, 16, 0xfe)]);
    assert_eq!(con.buffer[COLUMNS], 0xfe);
}

#[test]
fn console_wraps_a_full_line() {
    let mut con = Console::new(PixelColor(0, 0, 0), PixelColor(255, 255, 255));
    let line = vec![b'a'; COLUMNS + 1];
    let d = con.put_string(&line, false);
    assert_eq!(d.len(), COLUMNS + 1);
    assert_eq!(d[COLUMNS - 1], glyph(8 * 79, 0, b'a'));
    assert_eq!(d[COLUMNS], glyph(0, 16, b'a'));
    assert_eq!((con.cursor_row, con.cursor_column), (1, 1));
}

#[test]
fn console_scrolls_its_window() {
    let mut con = Console::new(PixelColor(0, 0, 0), PixelColor(255, 255, 255));
    let newlines = vec![b'\n'; ROWS - 1];
    assert!(con.put_string(&newlines, true).is_empty());
    assert_eq!(con.cursor_row, 24);
    let d = con.put_char(b'\n', true);
    assert_eq!(d, vec![ConsoleDraw::ScrollWindow { x0: 0, y0: 384, x1: 640, y1: 400 }]);
    assert_eq!((con.cursor_row, con.cursor_column), (24, 0));
}

#[test]
fn console_scrolls_the_screen() {
    let mut con = Console::new(PixelColor(0, 0, 0), PixelColor(255, 255, 255));
    con.put_string(b"A\nB\n", false);
    con.put_string(&vec![b'\n'; ROWS - 3], false);
    assert_eq!(con.cursor_row, 24);
    let d = con.put_char(b'\n', false);
    // row 0 takes "B"; row 1 takes the blank row 2 up to where both were blank
    assert_eq!(d[0], glyph(0, 0, b'B'));
    assert_eq!(d[1], glyph(0, 16, 0));
    assert_eq!(d.len(), 2 + COLUMNS);
    assert_eq!(d[2], glyph(0, 384, b' '));
    assert_eq!(d[1 + COLUMNS], glyph(8 * 79, 384, b' '));
    assert_eq!(con.buffer[0], b'B');
    assert_eq!(con.buffer[COLUMNS], 0);
    assert_eq!((con.cursor_row, con.cursor_column), (24, 0));
}

#[test]
fn console_clear() {
    let mut con = Console::new(PixelColor(0, 0, 0), PixelColor(255, 255, 255));
    con.put_string(b"Hello\nWo", false);
    con.cls();
    assert_eq!((con.cursor_row, con.cursor_column), (0, 0));
    assert!(con.buffer.iter().all(|b| *b == 0));
}

#[test]
fn clean_paints_every_pixel_black() {
    let w = GraphicWriter::new(FrameBufferConfig::new(2, 3, 4, 0, PixelFormat::RGBReserved8));
    let writes = w.clean();
    assert_eq!(writes.len(), 6);
    assert_eq!(writes[0], (0, 0));
    assert_eq!(writes[1 * 3 + 2], (1 + 4 * 2, 0));
    assert!(writes.iter().all(|p| p.1 == 0));
}
