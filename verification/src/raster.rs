//! A fixed-size RGB raster for the bitmap rendering back end.
//!
//! The buffer holds one page of `RASTER_WIDTH` by `RASTER_HEIGHT`
//! pixels, three bytes each, row-major. Painting is total: a pixel
//! outside the page is left alone, and an `x` past the right edge
//! wraps by the page width (as the row-major index arithmetic has it).

use vstd::prelude::*;

verus! {

/// Page width in pixels.
pub const RASTER_WIDTH: i64 = 595;

/// Page height in pixels.
pub const RASTER_HEIGHT: i64 = 842;

/// One page of RGB pixels.
#[derive(Debug)]
pub struct PixelBuffer {
    data: Vec<u8>,
}

/// The byte index where a pixel's three channels start.
pub open spec fn pixel_pos(x: int, y: int) -> int {
    ((x % (RASTER_WIDTH as int)) + y * (RASTER_WIDTH as int)) * 3
}

/// The buffer after one pixel write: the three channel bytes at the
/// pixel's position, or the buffer unchanged when the pixel lies
/// outside the page.
pub open spec fn spec_set_pixel(data: Seq<u8>, x: int, y: int, r: u8, g: u8, b: u8) -> Seq<u8> {
    if 0 <= x && 0 <= y && y < RASTER_HEIGHT {
        data.update(pixel_pos(x, y), r).update(pixel_pos(x, y) + 1, g).update(
            pixel_pos(x, y) + 2,
            b,
        )
    } else {
        data
    }
}

/// The buffer after filling rows `0..yn` of a rectangle column by
/// column; see [`spec_draw_rect_cols`].
pub open spec fn spec_draw_rect_col(
    data: Seq<u8>,
    x: int,
    y: int,
    xx: int,
    yn: int,
    r: u8,
    g: u8,
    b: u8,
) -> Seq<u8>
    decreases yn,
{
    if yn <= 0 {
        data
    } else {
        spec_set_pixel(spec_draw_rect_col(data, x, y, xx, yn - 1, r, g, b), xx + x, (yn - 1) + y, r, g, b)
    }
}

/// The buffer after filling the first `xn` columns of a rectangle of
/// height `h` at `(x, y)`.
pub open spec fn spec_draw_rect_cols(
    data: Seq<u8>,
    x: int,
    y: int,
    xn: int,
    h: int,
    r: u8,
    g: u8,
    b: u8,
) -> Seq<u8>
    decreases xn,
{
    if xn <= 0 {
        data
    } else {
        spec_draw_rect_col(spec_draw_rect_cols(data, x, y, xn - 1, h, r, g, b), x, y, xn - 1, h, r, g, b)
    }
}

impl PixelBuffer {
    /// The page holds exactly its pixels' bytes.
    pub closed spec fn wf(&self) -> bool {
        self.data@.len() == (RASTER_WIDTH as int) * (RASTER_HEIGHT as int) * 3
    }

    /// The raw bytes, row-major, three per pixel.
    pub closed spec fn bytes(&self) -> Seq<u8> {
        self.data@
    }

    /// A white page.
    pub fn new() -> (p: PixelBuffer)
        ensures
            p.wf(),
            p.bytes() == Seq::<u8>::new(((RASTER_WIDTH as int) * (RASTER_HEIGHT as int) * 3) as nat, |i: int| 255u8),
    {
        let total: usize = 595 * 842 * 3;
        let mut data: Vec<u8> = Vec::new();
        let mut i: usize = 0;
        while i < total
            invariant
                i <= total,
                data@.len() == i,
                forall|j: int| 0 <= j < i ==> data@[j] == 255u8,
            decreases total - i,
        {
            data.push(255);
            i += 1;
        }
        let p = PixelBuffer { data: data };
        proof {
            assert(p.bytes() =~= Seq::<u8>::new(
                ((RASTER_WIDTH as int) * (RASTER_HEIGHT as int) * 3) as nat,
                |i: int| 255u8,
            ));
        }
        p
    }

    /// The raw bytes as a vector, for the encoding back end.
    pub fn data(&self) -> (d: &Vec<u8>)
        ensures
            d@ == self.bytes(),
    {
        &self.data
    }

    /// Paints one pixel; see [`spec_set_pixel`].
    pub fn set_pixel(&mut self, x: i64, y: i64, r: u8, g: u8, b: u8)
        requires
            old(self).wf(),
        ensures
            final(self).wf(),
            final(self).bytes() == spec_set_pixel(old(self).bytes(), x as int, y as int, r, g, b),
    {
        if x < 0 || y < 0 || y >= RASTER_HEIGHT {
            return ;
        }
        let xm = x % RASTER_WIDTH;
        let idx = xm + y * RASTER_WIDTH;
        let pos = (idx * 3) as usize;
        self.data[pos] = r;
        self.data[pos + 1] = g;
        self.data[pos + 2] = b;
    }

    /// Fills a rectangle of the given pixel size at pixel position
    /// `(x, y)` with the given color, column by column; see
    /// [`spec_draw_rect_cols`].
    pub fn draw_rect(&mut self, x: i64, y: i64, width: i64, height: i64, r: u8, g: u8, b: u8)
        requires
            old(self).wf(),
            0 <= x,
            0 <= y,
            x + width <= i64::MAX,
            y + height <= i64::MAX,
        ensures
            final(self).wf(),
            final(self).bytes() == spec_draw_rect_cols(
                old(self).bytes(),
                x as int,
                y as int,
                width as int,
                height as int,
                r,
                g,
                b,
            ),
    {
        let mut xx: i64 = 0;
        if width <= 0 {
            return ;
        }
        while xx < width
            invariant
                self.wf(),
                0 <= xx <= width,
                0 <= x,
                0 <= y,
                x + width <= i64::MAX,
                y + height <= i64::MAX,
                self.bytes() == spec_draw_rect_cols(
                    old(self).bytes(),
                    x as int,
                    y as int,
                    xx as int,
                    height as int,
                    r,
                    g,
                    b,
                ),
            decreases width - xx,
        {
            let mut yy: i64 = 0;
            let ghost col_start = self.bytes();
            if height > 0 {
                while yy < height
                    invariant
                        self.wf(),
                        0 <= yy <= height,
                        0 <= x,
                        0 <= y,
                        0 <= xx < width,
                        x + width <= i64::MAX,
                        y + height <= i64::MAX,
                        self.bytes() == spec_draw_rect_col(
                            col_start,
                            x as int,
                            y as int,
                            xx as int,
                            yy as int,
                            r,
                            g,
                            b,
                        ),
                    decreases height - yy,
                {
                    self.set_pixel(xx + x, yy + y, r, g, b);
                    yy += 1;
                }
            }
            xx += 1;
        }
    }
}

} // verus!