//! The raster: two stacked bands of vertical stripes.
//!
//! The buffer is 720 pixels wide and 300 high, row-major, four bytes per
//! pixel (red, green, blue, alpha), every pixel opaque. Sample `i` owns the
//! two columns `2i` and `2i + 1`. In the upper band, rows 0 to 149, they
//! carry the sample's colour under the first colour model; in the lower
//! band, rows 150 to 299, its colour under the second.

use vstd::prelude::*;

verus! {

/// Width of the raster in pixels.
pub const WIDTH: usize = 720;

/// Height of the raster in pixels.
pub const HEIGHT: usize = 300;

/// Height of each band, and the row at which the lower band starts.
pub const BAND_HEIGHT: usize = 150;

/// Number of adjacent columns that one sample fills.
pub const COLUMN_WIDTH: usize = 2;

/// Number of stripes across the raster, one per sample.
pub const STRIPES: usize = 360;

/// Bytes that one pixel takes.
pub const BYTES_PER_PIXEL: usize = 4;

/// Length of the buffer in bytes.
pub const BUFFER_LEN: usize = 864_000;

/// The alpha of an opaque pixel.
pub const OPAQUE: u8 = 255;

/// The stripes fill the width, the two bands fill the height, and the
/// buffer holds every pixel once.
pub proof fn lemma_raster_dimensions()
    ensures
        WIDTH == STRIPES * COLUMN_WIDTH,
        HEIGHT == 2 * BAND_HEIGHT,
        BUFFER_LEN == WIDTH * HEIGHT * BYTES_PER_PIXEL,
{
}

/// A displayable colour, eight bits per channel.
#[derive(Clone, Copy, Debug, PartialEq, Eq, Structural)]
pub struct Rgb {
    pub r: u8,
    pub g: u8,
    pub b: u8,
}

/// One pixel of the raster.
#[derive(Clone, Copy, Debug, PartialEq, Eq, Structural)]
pub struct Rgba {
    pub r: u8,
    pub g: u8,
    pub b: u8,
    pub a: u8,
}

impl Rgb {
    /// Black, the colour that stands in for one that cannot be encoded.
    pub open spec fn black() -> Rgb {
        Rgb { r: 0, g: 0, b: 0 }
    }

    /// The colour as an opaque pixel.
    pub open spec fn opaque(self) -> Rgba {
        Rgba { r: self.r, g: self.g, b: self.b, a: OPAQUE }
    }
}

impl Default for Rgb {
    /// Black.
    fn default() -> (c: Rgb)
        ensures
            c == Rgb::black(),
    {
        Rgb { r: 0, g: 0, b: 0 }
    }
}

/// The pixel stored at index `p` of a row-major byte sequence.
pub open spec fn pixel_of(bytes: Seq<u8>, p: int) -> Rgba {
    let at = BYTES_PER_PIXEL * p;
    Rgba { r: bytes[at], g: bytes[at + 1], b: bytes[at + 2], a: bytes[at + 3] }
}

/// The pixel that a render puts at column `x` of row `y`: the colour of
/// stripe `x / 2`, taken from `top` above row 150 and from `bottom` from
/// there on.
pub open spec fn band_pixel(top: Seq<Rgb>, bottom: Seq<Rgb>, x: int, y: int) -> Rgba {
    let stripe = x / (COLUMN_WIDTH as int);
    if y < BAND_HEIGHT {
        top[stripe].opaque()
    } else {
        bottom[stripe].opaque()
    }
}

/// A finished 720 x 300 raster.
pub struct PixelBuffer {
    data: Vec<u8>,
}

impl View for PixelBuffer {
    type V = Seq<u8>;

    /// The bytes of the raster, row by row.
    closed spec fn view(&self) -> Seq<u8> {
        self.data@
    }
}

impl PixelBuffer {
    #[verifier::type_invariant]
    spec fn full(self) -> bool {
        self.data@.len() == BUFFER_LEN
    }

    /// The pixel at column `x` of row `y`.
    pub open spec fn pixel_at(self, x: int, y: int) -> Rgba {
        pixel_of(self@, y * WIDTH + x)
    }

    /// The raster shows the stripes `top` in its upper band and `bottom` in
    /// its lower band.
    pub open spec fn shows(self, top: Seq<Rgb>, bottom: Seq<Rgb>) -> bool {
        &&& self@.len() == BUFFER_LEN
        &&& forall|x: int, y: int|
            0 <= x < WIDTH && 0 <= y < HEIGHT ==> #[trigger] self.pixel_at(x, y) == band_pixel(
                top,
                bottom,
                x,
                y,
            )
    }

    /// Width in pixels, 720.
    pub fn width(&self) -> (w: usize)
        ensures
            w == WIDTH,
    {
        WIDTH
    }

    /// Height in pixels, 300.
    pub fn height(&self) -> (h: usize)
        ensures
            h == HEIGHT,
    {
        HEIGHT
    }

    /// Reads the pixel at column `x` of row `y`, if the raster has one
    /// there.
    pub fn pixel(&self, x: usize, y: usize) -> (p: Option<Rgba>)
        ensures
            p == if x < WIDTH && y < HEIGHT {
                Some(self.pixel_at(x as int, y as int))
            } else {
                None
            },
    {
        proof {
            use_type_invariant(self);
        }
        if x < WIDTH && y < HEIGHT {
            let at: usize = BYTES_PER_PIXEL * (y * WIDTH + x);
            Some(
                Rgba {
                    r: self.data[at],
                    g: self.data[at + 1],
                    b: self.data[at + 2],
                    a: self.data[at + 3],
                },
            )
        } else {
            None
        }
    }

    /// The bytes of the raster, row by row, four per pixel.
    pub fn data(&self) -> (bytes: &Vec<u8>)
        ensures
            bytes@ == self@,
            bytes@.len() == BUFFER_LEN,
    {
        proof {
            use_type_invariant(self);
        }
        &self.data
    }

    /// Gives up the raster for its bytes.
    pub fn into_bytes(self) -> (bytes: Vec<u8>)
        ensures
            bytes@ == self@,
            bytes@.len() == BUFFER_LEN,
    {
        proof {
            use_type_invariant(&self);
        }
        self.data
    }
}

/// Lays the colours of the 360 samples out as a raster: `top[i]` fills
/// columns `2i` and `2i + 1` of the upper band, `bottom[i]` the same columns
/// of the lower band. Every pixel is written once and is opaque.
pub fn rasterize(top: &[Rgb; STRIPES], bottom: &[Rgb; STRIPES]) -> (buffer: PixelBuffer)
    ensures
        buffer.shows(top@, bottom@),
{
    let mut data: Vec<u8> = Vec::with_capacity(BUFFER_LEN);
    let mut y: usize = 0;
    while y < HEIGHT
        invariant
            y <= HEIGHT,
            data@.len() == BYTES_PER_PIXEL * (y * WIDTH),
            forall|p: int|
                0 <= p < y * WIDTH ==> #[trigger] pixel_of(data@, p) == band_pixel(
                    top@,
                    bottom@,
                    p % (WIDTH as int),
                    p / (WIDTH as int),
                ),
        decreases HEIGHT - y,
    {
        let mut x: usize = 0;
        while x < WIDTH
            invariant
                x <= WIDTH,
                y < HEIGHT,
                data@.len() == BYTES_PER_PIXEL * (y * WIDTH + x),
                forall|p: int|
                    0 <= p < y * WIDTH + x ==> #[trigger] pixel_of(data@, p) == band_pixel(
                        top@,
                        bottom@,
                        p % (WIDTH as int),
                        p / (WIDTH as int),
                    ),
            decreases WIDTH - x,
        {
            let stripe: usize = x / COLUMN_WIDTH;
            let color: Rgb = if y < BAND_HEIGHT {
                top[stripe]
            } else {
                bottom[stripe]
            };
            let ghost before = data@;
            data.push(color.r);
            data.push(color.g);
            data.push(color.b);
            data.push(OPAQUE);
            proof {
                let here = y * WIDTH + x;
                assert forall|p: int| 0 <= p < here + 1 implies #[trigger] pixel_of(data@, p)
                    == band_pixel(top@, bottom@, p % (WIDTH as int), p / (WIDTH as int)) by {
                    if p < here {
                        assert(pixel_of(data@, p) == pixel_of(before, p));
                    } else {
                        assert(p % (WIDTH as int) == x && p / (WIDTH as int) == y);
                    }
                }
            }
            x = x + 1;
        }
        y = y + 1;
    }
    let buffer = PixelBuffer { data };
    proof {
        assert forall|x: int, y: int| 0 <= x < WIDTH && 0 <= y < HEIGHT implies #[trigger]
            buffer.pixel_at(x, y) == band_pixel(top@, bottom@, x, y) by {
            let p = y * WIDTH + x;
            assert(p % (WIDTH as int) == x && p / (WIDTH as int) == y);
            assert(pixel_of(data@, p) == band_pixel(
                top@,
                bottom@,
                p % (WIDTH as int),
                p / (WIDTH as int),
            ));
        }
    }
    buffer
}

} // verus!
