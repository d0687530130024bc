//! Pixel colours and the frame-buffer writer: which word of the linear frame
//! buffer a pixel lands in, and the 32-bit value stored there.
use vstd::prelude::*;
use crate::boot::{FrameBufferConfig, PixelFormat};

verus! {

/// A colour as red, green and blue intensities.
#[derive(Clone, Copy, Debug, PartialEq, Eq, Structural)]
pub struct PixelColor(pub u8, pub u8, pub u8);

/// Three bytes packed into one word, `hi` in bits 16..24, `mid` in 8..16 and
/// `lo` in 0..8.
pub open spec fn pack(hi: u8, mid: u8, lo: u8) -> u32 {
    (hi as int * 65536 + mid as int * 256 + lo as int) as u32
}

/// Byte `k` of a word.
pub open spec fn byte_of(value: u32, k: int) -> u8 {
    ((value as int / pow256(k)) % 256) as u8
}

pub open spec fn pow256(k: int) -> int {
    if k <= 0 { 1 } else if k == 1 { 256 } else if k == 2 { 65536 } else { 16777216 }
}

proof fn lemma_pack(hi: u8, mid: u8, lo: u8)
    ensures
        (hi as u32) << 16u32 | (mid as u32) << 8u32 | lo as u32 == hi as int * 65536 + mid as int * 256 + lo as int,
{
    let (a, b, c) = (hi as u32, mid as u32, lo as u32);
    assert(a < 256 && b < 256 && c < 256 ==> a << 16u32 | b << 8u32 | c == a * 65536 + b * 256 + c) by (bit_vector);
}

proof fn lemma_bytes(value: u32)
    ensures
        (value >> 16u32) as u8 == byte_of(value, 2),
        (value >> 8u32) as u8 == byte_of(value, 1),
        value as u8 == byte_of(value, 0),
{
    assert((value >> 16u32) as u8 == ((value / 65536) % 256) as u8
        && (value >> 8u32) as u8 == ((value / 256) % 256) as u8
        && value as u8 == (value % 256) as u8) by (bit_vector);
}

/// Whether the writer can draw in this format.
pub open spec fn supported(format: PixelFormat) -> bool {
    format == PixelFormat::RGBReserved8 || format == PixelFormat::BGRReserved8
}

impl PixelColor {
    pub fn new(red: u8, green: u8, blue: u8) -> (r: Self)
        ensures
            r == PixelColor(red, green, blue),
    {
        PixelColor(red, green, blue)
    }

    /// The word of an RGB-reserved frame buffer: red in the low byte.
    pub fn as_rgbx(&self) -> (r: u32)
        ensures
            r == pack(self.2, self.1, self.0),
    {
        let red = self.0 as u32;
        let green = self.1 as u32;
        let blue = self.2 as u32;
        proof {
            lemma_pack(self.2, self.1, self.0);
        }
        blue << 16 | green << 8 | red
    }

    /// The word of a BGR-reserved frame buffer: blue in the low byte.
    pub fn as_bgrx(&self) -> (r: u32)
        ensures
            r == pack(self.0, self.1, self.2),
    {
        let red = self.0 as u32;
        let green = self.1 as u32;
        let blue = self.2 as u32;
        proof {
            lemma_pack(self.0, self.1, self.2);
        }
        red << 16 | green << 8 | blue
    }

    /// The word for the frame buffer's format.
    pub fn as_u32(&self, format: PixelFormat) -> (r: u32)
        requires
            supported(format),
        ensures
            format == PixelFormat::RGBReserved8 ==> r == pack(self.2, self.1, self.0),
            format == PixelFormat::BGRReserved8 ==> r == pack(self.0, self.1, self.2),
            r == encoded(*self, format),
    {
        match format {
            PixelFormat::RGBReserved8 => self.as_rgbx(),
            _ => self.as_bgrx(),
        }
    }

    /// Reads a colour back from a word of the frame buffer. In the RGB
    /// format the red intensity is taken from bits 16..24.
    pub fn from_u32(value: u32, format: PixelFormat) -> (r: Self)
        requires
            supported(format),
        ensures
            format == PixelFormat::RGBReserved8 ==> r == PixelColor(byte_of(value, 2), byte_of(value, 1), byte_of(value, 0)),
            format == PixelFormat::BGRReserved8 ==> r == PixelColor(byte_of(value, 0), byte_of(value, 1), byte_of(value, 2)),
            r == decoded(value, format),
    {
        proof {
            lemma_bytes(value);
        }
        match format {
            PixelFormat::RGBReserved8 => PixelColor((value >> 16) as u8, (value >> 8) as u8, value as u8),
            _ => PixelColor(value as u8, (value >> 8) as u8, (value >> 16) as u8),
        }
    }
}

/// Writes pixels into the linear frame buffer described by its
/// configuration.
pub struct GraphicWriter {
    pub frame_config: FrameBufferConfig,
}

/// The word index of pixel `(x, y)`.
pub open spec fn pixel_index(config: FrameBufferConfig, x: int, y: int) -> int {
    x + config.pixel_per_scanline * y
}

impl GraphicWriter {
    pub fn new(frame_config: FrameBufferConfig) -> (r: Self)
        requires
            supported(frame_config.pixel_format),
        ensures
            r.frame_config == frame_config,
    {
        Self { frame_config }
    }

    /// The word index of a pixel and the value to store there. The pair
    /// `resolution()` gives is `(height, width)`; a pixel is drawn when `x`
    /// is below the first of them or `y` below the second.
    pub fn write(&self, x: usize, y: usize, color: PixelColor) -> (r: Option<(usize, u32)>)
        requires
            supported(self.frame_config.pixel_format),
            (x < self.frame_config.height || y < self.frame_config.width)
                ==> pixel_index(self.frame_config, x as int, y as int) <= usize::MAX,
        ensures
            (x < self.frame_config.height || y < self.frame_config.width) ==> ({
                let v = if self.frame_config.pixel_format == PixelFormat::RGBReserved8 {
                    pack(color.2, color.1, color.0)
                } else {
                    pack(color.0, color.1, color.2)
                };
                r == Some((pixel_index(self.frame_config, x as int, y as int) as usize, v))
            }),
            !(x < self.frame_config.height || y < self.frame_config.width) ==> r is None,
    {
        let (width, height) = self.frame_config.resolution();
        if x < width || y < height {
            let position = x + self.frame_config.stride() * y;
            Some((position, color.as_u32(self.frame_config.pixel_format())))
        } else {
            None
        }
    }

    /// The writes that paint the screen black: for each `x` below the first
    /// value of `resolution()` and each `y` below the second, in that order,
    /// the word of pixel `(x, y)` and the value 0.
    pub fn clean(&self) -> (r: Vec<(usize, u32)>)
        requires
            supported(self.frame_config.pixel_format),
            self.frame_config.height + self.frame_config.pixel_per_scanline * self.frame_config.width <= usize::MAX,
        ensures
            r@.len() == self.frame_config.height * self.frame_config.width,
            forall|x: int, y: int| 0 <= x < self.frame_config.height && 0 <= y < self.frame_config.width
                ==> #[trigger] r@[x * self.frame_config.width + y] == (pixel_index(self.frame_config, x, y) as usize, 0u32),
    {
        let (rows, columns) = self.frame_config.resolution();
        let ghost h = rows as int;
        let ghost w = columns as int;
        let ghost s = self.frame_config.pixel_per_scanline as int;
        let black = PixelColor(0, 0, 0);
        let mut writes: Vec<(usize, u32)> = Vec::new();
        let mut x: usize = 0;
        while x < rows
            invariant
                h == self.frame_config.height,
                w == self.frame_config.width,
                s == self.frame_config.pixel_per_scanline,
                rows == h,
                columns == w,
                supported(self.frame_config.pixel_format),
                h + s * w <= usize::MAX,
                black == PixelColor(0, 0, 0),
                x <= h,
                writes@.len() == x * w,
                forall|xi: int, yi: int| 0 <= xi < x && 0 <= yi < w
                    ==> #[trigger] writes@[xi * w + yi] == (pixel_index(self.frame_config, xi, yi) as usize, 0u32),
            decreases h - x,
        {
            let mut y: usize = 0;
            while y < columns
                invariant
                    h == self.frame_config.height,
                    w == self.frame_config.width,
                    s == self.frame_config.pixel_per_scanline,
                    rows == h,
                    columns == w,
                    supported(self.frame_config.pixel_format),
                    h + s * w <= usize::MAX,
                    black == PixelColor(0, 0, 0),
                    x < h,
                    y <= w,
                    writes@.len() == x * w + y,
                    forall|xi: int, yi: int| 0 <= xi < x && 0 <= yi < w
                        ==> #[trigger] writes@[xi * w + yi] == (pixel_index(self.frame_config, xi, yi) as usize, 0u32),
                    forall|yi: int| 0 <= yi < y
                        ==> #[trigger] writes@[x * w + yi] == (pixel_index(self.frame_config, x as int, yi) as usize, 0u32),
                decreases w - y,
            {
                proof {
                    assert(x + s * y <= h + s * w) by (nonlinear_arith)
                        requires
                            x < h,
                            y < w,
                            s >= 0,
                    ;
                }
                let written = self.write(x, y, black);
                proof {
                    assert(pack(0u8, 0u8, 0u8) == 0u32);
                    assert(written == Some((pixel_index(self.frame_config, x as int, y as int) as usize, 0u32)));
                }
                let ghost before = writes@;
                match written {
                    Some(w_) => writes.push(w_),
                    None => {},
                }
                proof {
                    assert(writes@[x * w + y] == (pixel_index(self.frame_config, x as int, y as int) as usize, 0u32));
                    assert forall|yi: int| 0 <= yi < y + 1
                        implies #[trigger] writes@[x * w + yi] == (pixel_index(self.frame_config, x as int, yi) as usize, 0u32) by {
                        if yi < y {
                            assert(writes@[x * w + yi] == before[x * w + yi]);
                        }
                    }
                    assert forall|xi: int, yi: int| 0 <= xi < x && 0 <= yi < w
                        implies #[trigger] writes@[xi * w + yi] == (pixel_index(self.frame_config, xi, yi) as usize, 0u32) by {
                        assert(xi * w + yi < x * w) by (nonlinear_arith)
                            requires
                                0 <= xi < x,
                                0 <= yi < w,
                        ;
                        assert(writes@[xi * w + yi] == before[xi * w + yi]);
                    }
                }
                y = y + 1;
            }
            proof {
                assert((x + 1) * w == x * w + w) by (nonlinear_arith);
                assert forall|xi: int, yi: int| 0 <= xi < x + 1 && 0 <= yi < w
                    implies #[trigger] writes@[xi * w + yi] == (pixel_index(self.frame_config, xi, yi) as usize, 0u32) by {
                    if xi == x {
                        assert(writes@[x * w + yi] == (pixel_index(self.frame_config, x as int, yi) as usize, 0u32));
                    }
                }
            }
            x = x + 1;
        }
        writes
    }

    /// Where a run of pixels starting at `(x, y)` goes and how many of them
    /// fit on the line: `None` past the last line.
    pub fn write_buf(&self, x: usize, y: usize, buffer: &[u32]) -> (r: Option<(usize, usize)>)
        requires
            y < self.frame_config.width ==> x <= self.frame_config.height,
            y < self.frame_config.width ==> pixel_index(self.frame_config, x as int, y as int) <= usize::MAX,
        ensures
            y >= self.frame_config.width ==> r is None,
            y < self.frame_config.width ==> r == Some((
                pixel_index(self.frame_config, x as int, y as int) as usize,
                if buffer@.len() > self.frame_config.height - x {
                    (self.frame_config.height - x) as usize
                } else {
                    buffer@.len() as usize
                },
            )),
    {
        let (width, height) = self.frame_config.resolution();
        if y >= height {
            return None;
        }
        let len = if buffer.len() > width - x { width - x } else { buffer.len() };
        let position = x + self.frame_config.stride() * y;
        Some((position, len))
    }
}


/// The word a colour is stored as in a format.
pub open spec fn encoded(c: PixelColor, format: PixelFormat) -> u32 {
    if format == PixelFormat::RGBReserved8 { pack(c.2, c.1, c.0) } else { pack(c.0, c.1, c.2) }
}

/// The colour a word reads back as in a format.
pub open spec fn decoded(v: u32, format: PixelFormat) -> PixelColor {
    if format == PixelFormat::RGBReserved8 {
        PixelColor(byte_of(v, 2), byte_of(v, 1), byte_of(v, 0))
    } else {
        PixelColor(byte_of(v, 0), byte_of(v, 1), byte_of(v, 2))
    }
}

/// A stored colour reads back with its red and blue exchanged, in either
/// format; so it reads back as itself exactly when red equals blue.
pub proof fn law_color_read_back(c: PixelColor, format: PixelFormat)
    requires
        supported(format),
    ensures
        decoded(encoded(c, format), format) == PixelColor(c.2, c.1, c.0),
        c.0 == c.2 ==> decoded(encoded(c, format), format) == c,
{
    let (x, y, z) = if format == PixelFormat::RGBReserved8 { (c.2, c.1, c.0) } else { (c.0, c.1, c.2) };
    let v = x as int * 65536 + y as int * 256 + z as int;
    assert(encoded(c, format) == v);
    assert((v / 1) % 256 == z);
    assert((v / 256) % 256 == y) by (nonlinear_arith)
        requires
            v == x as int * 65536 + y as int * 256 + z as int,
            x < 256,
            y < 256,
            z < 256,
    ;
    assert((v / 65536) % 256 == x) by (nonlinear_arith)
        requires
            v == x as int * 65536 + y as int * 256 + z as int,
            x < 256,
            y < 256,
            z < 256,
    ;
}

} // verus!
