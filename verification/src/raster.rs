//! Pixel buffers: three bytes a pixel, red, green and blue, row after row
//! from the top.

use crate::geometry::Rect;
use vstd::prelude::*;
use vstd::slice::slice_subrange;

verus! {

/// The number of bytes a pixel takes.
pub const CHANNELS: usize = 3;

/// The longest side that can be resampled: up to here single-precision
/// arithmetic, in which the resampling works, tells all pixel positions
/// apart.
pub const MAX_SIDE: u32 = 0x100_0000;

/// A picture as contracts see it.
pub struct Image {
    pub width: nat,
    pub height: nat,
    pub bytes: Seq<u8>,
}

impl Image {
    /// The number of bytes in a row.
    pub open spec fn row_len(self) -> nat {
        self.width * 3
    }

    /// There is a byte for every channel of every pixel, and no other.
    pub open spec fn wf(self) -> bool {
        self.bytes.len() == self.height * self.row_len()
    }

    /// The bytes of row `y`, counted from the top.
    pub open spec fn row(self, y: int) -> Seq<u8> {
        row_at(self.bytes, self.row_len(), y)
    }

    /// Channel `c` of the pixel in column `x` of row `y`.
    pub open spec fn channel(self, x: int, y: int, c: int) -> u8 {
        self.row(y)[x * 3 + c]
    }

    /// `(x, y)` is a pixel of the picture and `c` one of its channels.
    pub open spec fn has(self, x: int, y: int, c: int) -> bool {
        0 <= x < self.width && 0 <= y < self.height && 0 <= c < 3
    }

    /// Every byte is zero: the picture is black all over.
    pub open spec fn is_blank(self) -> bool {
        forall|i: int| 0 <= i < self.bytes.len() ==> self.bytes[i] == 0
    }
}

/// Row `y` of a buffer whose rows are `row_len` bytes long.
pub open spec fn row_at(bytes: Seq<u8>, row_len: nat, y: int) -> Seq<u8> {
    bytes.subrange(y * row_len, y * row_len + row_len)
}

/// `len` zero bytes.
pub open spec fn zeros(len: nat) -> Seq<u8> {
    Seq::new(len, |i: int| 0u8)
}

/// Rows `y` of a buffer whose rows are `row_len` long lie inside it.
pub proof fn lemma_row_inside(y: int, height: int, row_len: int)
    requires
        0 <= y < height,
        0 <= row_len,
    ensures
        0 <= y * row_len,
        y * row_len + row_len <= height * row_len,
{
    assert(0 <= y * row_len) by (nonlinear_arith)
        requires
            0 <= y,
            0 <= row_len,
    ;
    assert(y * row_len + row_len <= height * row_len) by (nonlinear_arith)
        requires
            y + 1 <= height,
            0 <= row_len,
    ;
}

/// A buffer of whole rows that gets one more row keeps the rows it had, and
/// the new row is its last.
pub proof fn lemma_append_row(before: Seq<u8>, segment: Seq<u8>, rows: int, row_len: nat)
    requires
        0 <= rows,
        before.len() == rows * row_len,
        segment.len() == row_len,
    ensures
        (before + segment).len() == (rows + 1) * row_len,
        row_at(before + segment, row_len, rows) == segment,
        forall|r: int|
            0 <= r < rows ==> #[trigger] row_at(before + segment, row_len, r) == row_at(
                before,
                row_len,
                r,
            ),
{
    assert((rows + 1) * row_len == rows * row_len + row_len) by (nonlinear_arith);
    assert(row_at(before + segment, row_len, rows) =~= segment);
    assert forall|r: int| 0 <= r < rows implies #[trigger] row_at(before + segment, row_len, r)
        == row_at(before, row_len, r) by {
        lemma_row_inside(r, rows, row_len as int);
        assert(row_at(before + segment, row_len, r) =~= row_at(before, row_len, r));
    }
}

/// A channel of a well-formed picture is the byte at its place in the
/// buffer: rows come one after the other, and pixels within a row.
pub proof fn lemma_channel_is_byte(image: Image, x: int, y: int, c: int)
    requires
        image.wf(),
        image.has(x, y, c),
    ensures
        0 <= (y * image.width + x) * 3 + c < image.bytes.len(),
        image.channel(x, y, c) == image.bytes[(y * image.width + x) * 3 + c],
{
    lemma_row_inside(y, image.height as int, image.row_len() as int);
    assert((y * image.width + x) * 3 == y * (image.width * 3) + x * 3) by (nonlinear_arith);
}

/// A picture held in memory.
#[derive(Clone, Debug)]
pub struct Raster {
    pub width: u32,
    pub height: u32,
    pub pixels: Vec<u8>,
}

impl View for Raster {
    type V = Image;

    open spec fn view(&self) -> Image {
        Image { width: self.width as nat, height: self.height as nat, bytes: self.pixels@ }
    }
}

/// Whether a buffer of `width` by `height` pixels can be held in memory.
pub open spec fn buffer_fits(width: int, height: int) -> bool {
    width * height * 3 <= isize::MAX
}

/// Whether a picture `width` wide can be resampled to `new_width` by
/// `new_height`: no side is longer than `MAX_SIDE`, and the buffers that the
/// resampling sets up, one of them with four single-precision numbers a
/// pixel, can be allocated.
pub open spec fn resample_fits(width: int, height: int, new_width: int, new_height: int) -> bool {
    &&& width <= MAX_SIDE
    &&& height <= MAX_SIDE
    &&& new_width <= MAX_SIDE
    &&& new_height <= MAX_SIDE
    &&& 16 * width * new_height <= isize::MAX
    &&& 3 * new_width * new_height <= isize::MAX
}

/// Says whether a picture `width` wide and `height` high can be resampled to
/// `new_width` by `new_height`.
pub fn can_resample(width: u32, height: u32, new_width: u32, new_height: u32) -> (fits: bool)
    ensures
        fits == resample_fits(width as int, height as int, new_width as int, new_height as int),
{
    if width > MAX_SIDE || height > MAX_SIDE || new_width > MAX_SIDE || new_height > MAX_SIDE {
        return false;
    }
    assert(16 * width * new_height <= 16 * 0x100_0000 * 0x100_0000) by (nonlinear_arith)
        requires
            0 <= width <= 0x100_0000,
            0 <= new_height <= 0x100_0000,
    ;
    assert(3 * new_width * new_height <= 3 * 0x100_0000 * 0x100_0000) by (nonlinear_arith)
        requires
            0 <= new_width <= 0x100_0000,
            0 <= new_height <= 0x100_0000,
    ;
    let limit: u64 = isize::MAX as u64;
    let columns: u64 = 16 * (width as u64) * (new_height as u64);
    let target: u64 = 3 * (new_width as u64) * (new_height as u64);
    columns <= limit && target <= limit
}

/// Appends `count` zero bytes to `out`.
pub fn push_zeros(out: &mut Vec<u8>, count: usize)
    ensures
        final(out)@ == old(out)@ + zeros(count as nat),
{
    let mut done: usize = 0;
    while done < count
        invariant
            done <= count,
            out@ == old(out)@ + zeros(done as nat),
        decreases count - done,
    {
        out.push(0u8);
        done += 1;
        assert(out@ =~= old(out)@ + zeros(done as nat));
    }
}

impl Raster {
    /// The buffer holds exactly the pixels of a `width` by `height` picture.
    pub open spec fn wf(&self) -> bool {
        self@.wf()
    }

    /// Says whether the buffer holds exactly the pixels of a `width` by
    /// `height` picture.
    pub fn is_well_formed(&self) -> (ok: bool)
        ensures
            ok == self.wf(),
    {
        let row: u128 = (self.width as u128) * 3;
        proof {
            assert(0 <= (self.height as int) * (row as int) <= 0xFFFF_FFFF * (0xFFFF_FFFF * 3))
                by (nonlinear_arith)
                requires
                    0 <= self.height <= 0xFFFF_FFFF,
                    0 <= row <= 0xFFFF_FFFF * 3,
            ;
        }
        let expected: u128 = (self.height as u128) * row;
        self.pixels.len() as u128 == expected
    }

    /// Makes a picture from its pixels. Nothing is returned unless there are
    /// `width * height` pixels of three bytes.
    pub fn from_pixels(width: u32, height: u32, pixels: Vec<u8>) -> (r: Option<Raster>)
        ensures
            r is Some <==> pixels@.len() == height * (width * 3),
            r matches Some(raster) ==> raster.wf() && raster@ == (Image {
                width: width as nat,
                height: height as nat,
                bytes: pixels@,
            }),
    {
        let raster = Raster { width, height, pixels };
        if raster.is_well_formed() {
            Some(raster)
        } else {
            None
        }
    }

    /// Makes a black picture of `width` by `height`. Nothing is returned for
    /// a picture too large to be held in memory.
    pub fn blank(width: u32, height: u32) -> (r: Option<Raster>)
        ensures
            r is Some <==> buffer_fits(width as int, height as int),
            r matches Some(raster) ==> {
                &&& raster.wf()
                &&& raster@.width == width
                &&& raster@.height == height
                &&& raster@.is_blank()
            },
    {
        proof {
            assert(0 <= (width as int) * (height as int) * 3 <= 0xFFFF_FFFF * 0xFFFF_FFFF * 3)
                by (nonlinear_arith)
                requires
                    0 <= width <= 0xFFFF_FFFF,
                    0 <= height <= 0xFFFF_FFFF,
            ;
            assert((width as int) * (height as int) * 3 == (height as int) * ((width as int) * 3))
                by (nonlinear_arith);
        }
        let len: u128 = (width as u128) * (height as u128) * 3;
        if len > isize::MAX as u128 {
            return None;
        }
        let pixels: Vec<u8> = vec![0u8; len as usize];
        Some(Raster { width, height, pixels })
    }

    /// Cuts `rect` out of the picture: the pixel at `(x, y)` of the result is
    /// the pixel at `(rect.x + x, rect.y + y)` here. Nothing is returned where
    /// `rect` does not lie inside the picture, or the buffer does not hold
    /// exactly its pixels.
    pub fn crop(&self, rect: Rect) -> (r: Option<Raster>)
        ensures
            r is Some <==> self.wf() && rect.fits_within(self.width as int, self.height as int),
            r matches Some(out) ==> {
                &&& out.wf()
                &&& out.width == rect.width
                &&& out.height == rect.height
                &&& forall|y: int|
                    0 <= y < rect.height ==> #[trigger] out@.row(y) == self@.row(
                        rect.y + y,
                    ).subrange(rect.x * 3, (rect.x + rect.width) * 3)
                &&& forall|x: int, y: int, c: int|
                    out@.has(x, y, c) ==> #[trigger] out@.channel(x, y, c) == self@.channel(
                        rect.x + x,
                        rect.y + y,
                        c,
                    )
            },
    {
        let inside = (rect.x as u64) + (rect.width as u64) <= self.width as u64 && (rect.y as u64)
            + (rect.height as u64) <= self.height as u64;
        if inside && self.is_well_formed() {
            Some(self.cut(rect))
        } else {
            None
        }
    }

    /// Cuts `rect`, which lies inside the picture, out of it.
    fn cut(&self, rect: Rect) -> (out: Raster)
        requires
            self.wf(),
            rect.fits_within(self.width as int, self.height as int),
        ensures
            out.wf(),
            out.width == rect.width,
            out.height == rect.height,
            forall|y: int|
                0 <= y < rect.height ==> #[trigger] out@.row(y) == self@.row(rect.y + y).subrange(
                    rect.x * 3,
                    (rect.x + rect.width) * 3,
                ),
            forall|x: int, y: int, c: int|
                out@.has(x, y, c) ==> #[trigger] out@.channel(x, y, c) == self@.channel(
                    rect.x + x,
                    rect.y + y,
                    c,
                ),
    {
        let mut pixels: Vec<u8> = Vec::new();
        if rect.width == 0 || rect.height == 0 {
            let out = Raster { width: rect.width, height: rect.height, pixels };
            proof {
                if rect.height != 0 {
                    assert forall|y: int| 0 <= y < rect.height implies #[trigger] out@.row(y)
                        =~= self@.row(rect.y + y).subrange(
                        rect.x * 3,
                        (rect.x + rect.width) * 3,
                    ) by {
                        lemma_row_inside(
                            rect.y + y,
                            self.height as int,
                            self@.row_len() as int,
                        );
                        assert(out@.row_len() == 0);
                        assert(y * out@.row_len() == 0) by (nonlinear_arith)
                            requires
                                out@.row_len() == 0,
                        ;
                    }
                }
            }
            return out;
        }
        let total: usize = self.pixels.len();
        proof {
            lemma_row_inside(0, self.height as int, self@.row_len() as int);
        }
        let row_len: usize = (self.width as usize) * 3;
        let out_len: usize = (rect.width as usize) * 3;
        let left: usize = (rect.x as usize) * 3;
        let mut y: u32 = 0;
        while y < rect.height
            invariant
                self.wf(),
                rect.fits_within(self.width as int, self.height as int),
                y <= rect.height,
                total == self.pixels@.len(),
                row_len == self@.row_len(),
                out_len == rect.width * 3,
                left == rect.x * 3,
                pixels@.len() == y * out_len,
                forall|r: int|
                    0 <= r < y ==> #[trigger] pixels@.subrange(r * out_len, r * out_len + out_len)
                        == self@.row(rect.y + r).subrange(left as int, left + out_len),
            decreases rect.height - y,
        {
            proof {
                lemma_row_inside(rect.y + y, self.height as int, row_len as int);
                lemma_row_inside(y as int, rect.height as int, out_len as int);
                lemma_row_inside(rect.y + y, self.height as int, out_len as int);
            }
            let start: usize = ((rect.y + y) as usize) * row_len + left;
            let segment = slice_subrange(self.pixels.as_slice(), start, start + out_len);
            let ghost before = pixels@;
            pixels.extend_from_slice(segment);
            proof {
                assert(pixels@ =~= before + segment@);
                assert(segment@ =~= self@.row(rect.y + y).subrange(left as int, left + out_len));
                assert((y + 1) * out_len == y * out_len + out_len) by (nonlinear_arith);
                assert forall|r: int| 0 <= r < y + 1 implies #[trigger] pixels@.subrange(
                    r * out_len,
                    r * out_len + out_len,
                ) == self@.row(rect.y + r).subrange(left as int, left + out_len) by {
                    if r < y {
                        lemma_row_inside(r, y as int, out_len as int);
                        assert(pixels@.subrange(r * out_len, r * out_len + out_len)
                            =~= before.subrange(r * out_len, r * out_len + out_len));
                    } else {
                        assert(pixels@.subrange(r * out_len, r * out_len + out_len)
                            =~= segment@);
                    }
                }
            }
            y += 1;
        }
        let out = Raster { width: rect.width, height: rect.height, pixels };
        proof {
            assert(rect.height * out_len == rect.height * (rect.width * 3)) by (nonlinear_arith)
                requires
                    out_len == rect.width * 3,
            ;
            assert forall|x: int, y: int, c: int| out@.has(x, y, c) implies #[trigger] out@.channel(
                x,
                y,
                c,
            ) == self@.channel(rect.x + x, rect.y + y, c) by {
                assert(out@.row(y) == self@.row(rect.y + y).subrange(left as int, left + out_len));
                lemma_row_inside(rect.y + y, self.height as int, row_len as int);
            }
        }
        out
    }

    /// Resamples the picture to `new_width` by `new_height` with
    /// `image::imageops::resize` and its Lanczos filter of window 3, paying
    /// no regard to the aspect ratio.
    ///
    /// Trusted: the result has the size that was asked for. Its pixels come
    /// out of floating-point arithmetic and nothing is said of them.
    #[verifier::external_body]
    pub(crate) fn resize_exact(&self, new_width: u32, new_height: u32) -> (out: Raster)
        requires
            self.wf(),
            resample_fits(
                self.width as int,
                self.height as int,
                new_width as int,
                new_height as int,
            ),
        ensures
            out.wf(),
            out.width == new_width,
            out.height == new_height,
    {
        let source = image::ImageBuffer::<image::Rgb<u8>, &[u8]>::from_raw(
            self.width,
            self.height,
            self.pixels.as_slice(),
        ).unwrap();
        let filter = image::imageops::FilterType::Lanczos3;
        let resized = image::imageops::resize(&source, new_width, new_height, filter);
        Raster { width: new_width, height: new_height, pixels: resized.into_raw() }
    }
}

} // verus!
