//! The frame compositor: from the images of a job to the pixels of its
//! frame.
//!
//! A landscape frame shows one image, scaled to fit and centered on black. A
//! portrait frame is divided into three bands of equal height, one below the
//! other, and shows an image in each: the image is cropped to the shape of
//! the band and scaled to fill it. An image that cannot be used leaves its
//! band black.

use crate::error::FrameError;
use crate::geometry::{letterbox, letterbox_rect, smart_crop, smart_crop_rect};
use crate::naming::{frame_file_name, frame_name};
use crate::schedule::{FrameJob, Layout, STACKED_HEIGHT, STACKED_WIDTH};
use crate::raster::{
    buffer_fits,
    can_resample,
    lemma_append_row,
    lemma_row_inside,
    push_zeros,
    resample_fits,
    row_at,
    zeros,
    Raster,
};
use vstd::prelude::*;
use vstd::slice::slice_subrange;

verus! {

/// The number of bands in a portrait frame.
pub const BANDS: usize = 3;

/// `band` is a picture that fills a band of a frame `width` wide whose bands
/// are `band_height` high.
pub open spec fn band_fits(band: Option<Raster>, width: u32, band_height: u32) -> bool {
    band matches Some(picture) && picture.wf() && picture.width == width && picture.height
        == band_height
}

/// The bytes of band `i` of a frame: the picture given for it, or black where
/// none is given or the one given does not fill the band.
pub open spec fn band_bytes(
    bands: Seq<Option<Raster>>,
    i: int,
    width: u32,
    band_height: u32,
) -> Seq<u8> {
    if 0 <= i < bands.len() && band_fits(bands[i], width, band_height) {
        bands[i]->0.pixels@
    } else {
        zeros((band_height * (width * 3)) as nat)
    }
}

/// The bytes of a frame of `width` by `height` with the pictures in `bands`
/// stacked in it: three bands, each a third of the height, one below the
/// other, and black rows for what the division leaves over.
pub open spec fn stacked_bytes(bands: Seq<Option<Raster>>, width: u32, height: u32) -> Seq<u8> {
    let band_height = (height / 3) as u32;
    band_bytes(bands, 0, width, band_height) + band_bytes(bands, 1, width, band_height)
        + band_bytes(bands, 2, width, band_height) + zeros(((height % 3) * (width * 3)) as nat)
}

/// The band in which row `y` of a frame of height `height` lies, counted
/// from the top. The rows that the division by three leaves over lie in no
/// band, and get the number of bands.
pub open spec fn band_of_row(height: u32, y: int) -> int {
    let band_height = height / 3;
    if band_height > 0 && y < 3 * band_height {
        y / (band_height as int)
    } else {
        BANDS as int
    }
}

/// The pixels of a stacked frame, one by one: a pixel in a band for which a
/// picture is given is the pixel of that picture as many rows down as the
/// pixel lies below the top of the band, and every other pixel is black.
pub proof fn lemma_stacked_pixels(
    pictures: Seq<Option<Raster>>,
    width: u32,
    height: u32,
    x: int,
    y: int,
    c: int,
)
    requires
        0 <= x < width,
        0 <= y < height,
        0 <= c < 3,
    ensures
        ({
            let frame = crate::raster::Image {
                width: width as nat,
                height: height as nat,
                bytes: stacked_bytes(pictures, width, height),
            };
            let band_height = (height / 3) as u32;
            let i = band_of_row(height, y);
            &&& frame.wf()
            &&& 0 <= i <= BANDS
            &&& i < BANDS ==> i * band_height <= y < (i + 1) * band_height
            &&& frame.channel(x, y, c) == (if i < BANDS && i < pictures.len() && band_fits(
                pictures[i],
                width,
                band_height,
            ) {
                pictures[i]->0@.channel(x, y - i * band_height, c)
            } else {
                0u8
            })
        }),
{
    let band_height = (height / 3) as u32;
    let rest = height % 3;
    let row = (width * 3) as nat;
    let band_len = band_height * row;
    let first = band_bytes(pictures, 0, width, band_height);
    let second = band_bytes(pictures, 1, width, band_height);
    let third = band_bytes(pictures, 2, width, band_height);
    let bytes = stacked_bytes(pictures, width, height);
    let i = band_of_row(height, y);
    assert(band_len + band_len + band_len + rest * row == height * row) by (nonlinear_arith)
        requires
            height == 3 * band_height + rest,
            band_len == band_height * row,
    ;
    assert(0 <= band_len) by (nonlinear_arith)
        requires
            band_len == band_height * row,
            0 <= band_height,
            0 <= row,
    ;
    assert(0 <= rest * row) by (nonlinear_arith)
        requires
            0 <= rest,
            0 <= row,
    ;
    lemma_row_inside(y, height as int, row as int);
    let k = y * row + x * 3 + c;
    assert(row_at(bytes, row, y)[x * 3 + c] == bytes[k]);
    if band_height > 0 && y < 3 * band_height {
        let band = if y < band_height {
            0int
        } else if y < 2 * band_height {
            1int
        } else {
            2int
        };
        let local = y - band * band_height;
        vstd::arithmetic::div_mod::lemma_fundamental_div_mod_converse(
            y,
            band_height as int,
            band,
            local,
        );
        assert(i == band);
        lemma_row_inside(local, band_height as int, row as int);
        assert(y * row == band * band_len + local * row) by (nonlinear_arith)
            requires
                y == band * band_height + local,
                band_len == band_height * row,
        ;
        let piece = band_bytes(pictures, band, width, band_height);
        assert(first.len() == band_len);
        assert(second.len() == band_len);
        assert(third.len() == band_len);
        let inside = local * row + x * 3 + c;
        if band == 0 {
            assert(k == inside);
            assert(bytes[k] == first[inside]);
        } else if band == 1 {
            assert(k == band_len + inside);
            assert(bytes[k] == second[inside]);
        } else {
            assert(k == band_len + band_len + inside);
            assert(bytes[k] == third[inside]);
        }
        assert(bytes[k] == piece[inside]);
        if band < pictures.len() && band_fits(pictures[band], width, band_height) {
            assert(row_at(piece, row, local)[x * 3 + c] == piece[local * row + x * 3 + c]);
        }
    } else {
        if band_height > 0 {
            assert(y * row >= 3 * band_len) by (nonlinear_arith)
                requires
                    y >= 3 * band_height,
                    band_len == band_height * row,
                    row >= 0,
            ;
        } else {
            assert(band_len == 0) by (nonlinear_arith)
                requires
                    band_len == band_height * row,
                    band_height == 0,
            ;
        }
        assert(bytes[k] == 0);
    }
}

/// Appends band `i` of a frame to its bytes.
fn append_band(
    pixels: &mut Vec<u8>,
    bands: &Vec<Option<Raster>>,
    i: usize,
    width: u32,
    band_height: u32,
    band_len: usize,
)
    requires
        band_len == band_height * (width * 3),
    ensures
        final(pixels)@ == old(pixels)@ + band_bytes(bands@, i as int, width, band_height),
{
    if i < bands.len() {
        if let Some(picture) = &bands[i] {
            if picture.width == width && picture.height == band_height
                && picture.is_well_formed() {
                let ghost before = pixels@;
                pixels.extend_from_slice(picture.pixels.as_slice());
                assert(pixels@ =~= before + picture.pixels@);
                return ;
            }
        }
    }
    push_zeros(pixels, band_len);
}

/// Stacks the pictures in `bands` in a frame of `width` by `height`. A band
/// for which no picture is given, or none of the size of the band, stays
/// black. Nothing is returned for a frame too large to be held in memory.
pub fn stack_bands(bands: &Vec<Option<Raster>>, width: u32, height: u32) -> (r: Option<Raster>)
    ensures
        r is Some <==> buffer_fits(width as int, height as int),
        r matches Some(frame) ==> {
            &&& frame.wf()
            &&& frame.width == width
            &&& frame.height == height
            &&& frame.pixels@ == stacked_bytes(bands@, width, height)
        },
{
    proof {
        assert(0 <= (width as int) * (height as int) * 3 <= 0xFFFF_FFFF * 0xFFFF_FFFF * 3)
            by (nonlinear_arith)
            requires
                0 <= width <= 0xFFFF_FFFF,
                0 <= height <= 0xFFFF_FFFF,
        ;
    }
    let len: u128 = (width as u128) * (height as u128) * 3;
    if len > isize::MAX as u128 {
        return None;
    }
    let band_height: u32 = height / 3;
    let rest: u32 = height % 3;
    proof {
        let row = width * 3;
        assert(band_height * row + band_height * row + band_height * row + rest * row == height
            * row) by (nonlinear_arith)
            requires
                height == 3 * band_height + rest,
        ;
        assert(width * height * 3 == height * row) by (nonlinear_arith)
            requires
                row == width * 3,
        ;
        assert(0 <= band_height * row) by (nonlinear_arith)
            requires
                0 <= band_height,
                0 <= row,
        ;
        assert(0 <= rest * row) by (nonlinear_arith)
            requires
                0 <= rest,
                0 <= row,
        ;
        if height > 0 {
            assert(row <= height * row) by (nonlinear_arith)
                requires
                    1 <= height,
                    0 <= row,
            ;
        }
    }
    if height == 0 {
        let frame = Raster { width, height, pixels: Vec::new() };
        assert(frame.pixels@ =~= stacked_bytes(bands@, width, height));
        return Some(frame);
    }
    let row_len: usize = (width as usize) * 3;
    let band_len: usize = (band_height as usize) * row_len;
    let mut pixels: Vec<u8> = Vec::new();
    append_band(&mut pixels, bands, 0, width, band_height, band_len);
    append_band(&mut pixels, bands, 1, width, band_height, band_len);
    append_band(&mut pixels, bands, 2, width, band_height, band_len);
    push_zeros(&mut pixels, (rest as usize) * row_len);
    let frame = Raster { width, height, pixels };
    proof {
        assert(frame.pixels@ =~= stacked_bytes(bands@, width, height));
    }
    Some(frame)
}

/// Row `row` of a black frame `width` wide on which `picture` lies with its
/// top-left corner at `(x, y)`.
pub open spec fn placed_row(picture: Raster, x: u32, y: u32, width: u32, row: int) -> Seq<u8> {
    if y <= row < y + picture.height {
        zeros((x * 3) as nat) + picture@.row(row - y) + zeros(
            ((width - x - picture.width) * 3) as nat,
        )
    } else {
        zeros((width * 3) as nat)
    }
}

/// Lays `picture` on a black frame of `width` by `height`, with its top-left
/// corner at `(x, y)`. Nothing is returned where the picture does not lie
/// inside the frame, or for a frame too large to be held in memory.
pub fn place_on_blank(
    picture: &Raster,
    x: u32,
    y: u32,
    width: u32,
    height: u32,
) -> (r: Option<Raster>)
    ensures
        r is Some <==> {
            &&& picture.wf()
            &&& x + picture.width <= width
            &&& y + picture.height <= height
            &&& buffer_fits(width as int, height as int)
        },
        r matches Some(frame) ==> {
            &&& frame.wf()
            &&& frame.width == width
            &&& frame.height == height
            &&& forall|row: int|
                0 <= row < height ==> #[trigger] frame@.row(row) == placed_row(
                    *picture,
                    x,
                    y,
                    width,
                    row,
                )
            &&& forall|cx: int, cy: int, c: int|
                frame@.has(cx, cy, c) ==> #[trigger] frame@.channel(cx, cy, c) == (if x <= cx < x
                    + picture.width && y <= cy < y + picture.height {
                    picture@.channel(cx - x, cy - y, c)
                } else {
                    0u8
                })
        },
{
    proof {
        assert(0 <= (width as int) * (height as int) * 3 <= 0xFFFF_FFFF * 0xFFFF_FFFF * 3)
            by (nonlinear_arith)
            requires
                0 <= width <= 0xFFFF_FFFF,
                0 <= height <= 0xFFFF_FFFF,
        ;
        assert(width * height * 3 == height * (width * 3)) by (nonlinear_arith);
    }
    let len: u128 = (width as u128) * (height as u128) * 3;
    if len > isize::MAX as u128 || !picture.is_well_formed() {
        return None;
    }
    if (x as u64) + (picture.width as u64) > width as u64 || (y as u64) + (picture.height as u64)
        > height as u64 {
        return None;
    }
    let mut pixels: Vec<u8> = Vec::new();
    if height == 0 {
        return Some(Raster { width, height, pixels });
    }
    proof {
        lemma_row_inside(0, height as int, (width * 3) as int);
    }
    let row_len: usize = (width as usize) * 3;
    let left: usize = (x as usize) * 3;
    let inner: usize = (picture.width as usize) * 3;
    let right: usize = row_len - left - inner;
    let total: usize = picture.pixels.len();
    let mut row: u32 = 0;
    while row < height
        invariant
            picture.wf(),
            total == picture.pixels@.len(),
            x + picture.width <= width,
            y + picture.height <= height,
            row <= height,
            row_len == width * 3,
            left == x * 3,
            inner == picture.width * 3,
            right == (width - x - picture.width) * 3,
            height * row_len <= isize::MAX,
            pixels@.len() == row * row_len,
            forall|r: int|
                0 <= r < row ==> #[trigger] row_at(pixels@, row_len as nat, r) == placed_row(
                    *picture,
                    x,
                    y,
                    width,
                    r,
                ),
        decreases height - row,
    {
        let ghost before = pixels@;
        if row >= y && row - y < picture.height {
            proof {
                lemma_row_inside(row - y, picture.height as int, inner as int);
            }
            let start: usize = ((row - y) as usize) * inner;
            push_zeros(&mut pixels, left);
            let segment = slice_subrange(picture.pixels.as_slice(), start, start + inner);
            let ghost padded = pixels@;
            pixels.extend_from_slice(segment);
            assert(pixels@ =~= padded + segment@);
            push_zeros(&mut pixels, right);
            assert(pixels@ =~= before + placed_row(*picture, x, y, width, row as int));
        } else {
            push_zeros(&mut pixels, row_len);
        }
        proof {
            lemma_append_row(
                before,
                placed_row(*picture, x, y, width, row as int),
                row as int,
                row_len as nat,
            );
        }
        row += 1;
    }
    let frame = Raster { width, height, pixels };
    proof {
        assert forall|cx: int, cy: int, c: int|
            frame@.has(cx, cy, c) implies #[trigger] frame@.channel(cx, cy, c) == (if x <= cx < x
            + picture.width && y <= cy < y + picture.height {
            picture@.channel(cx - x, cy - y, c)
        } else {
            0u8
        }) by {
            assert(row_at(frame.pixels@, row_len as nat, cy) == placed_row(
                *picture,
                x,
                y,
                width,
                cy,
            ));
            if y <= cy < y + picture.height {
                lemma_row_inside(cy - y, picture.height as int, inner as int);
                let inside = picture@.row(cy - y);
                assert(inside.len() == inner);
                let whole = zeros(left as nat) + inside + zeros(right as nat);
                if x <= cx < x + picture.width {
                    assert(whole[cx * 3 + c] == inside[(cx - x) * 3 + c]);
                } else {
                    assert(whole[cx * 3 + c] == 0);
                }
            }
        }
    }
    Some(frame)
}

/// `source` can be cropped to the shape of a `target_width` by
/// `target_height` target and scaled to fill it: it is a picture with at
/// least one pixel, the target is not empty, and its crop can be resampled.
pub open spec fn croppable(source: Raster, target_width: u32, target_height: u32) -> bool {
    &&& source.wf()
    &&& source.width > 0
    &&& source.height > 0
    &&& target_width > 0
    &&& target_height > 0
    &&& {
        let rect = smart_crop(source.width, source.height, target_width, target_height);
        resample_fits(
            rect.width as int,
            rect.height as int,
            target_width as int,
            target_height as int,
        )
    }
}

/// Cuts out of `source` the part that has the aspect ratio of the target,
/// around its center. This is what is scaled to fill the target. Nothing is
/// returned where the target has an empty side, or the buffer of `source`
/// does not hold exactly its pixels.
pub fn crop_to_target(
    source: &Raster,
    target_width: u32,
    target_height: u32,
) -> (r: Option<Raster>)
    ensures
        r is Some <==> source.wf() && target_width > 0 && target_height > 0,
        r matches Some(out) ==> {
            let rect = smart_crop(source.width, source.height, target_width, target_height);
            &&& out.wf()
            &&& out.width == rect.width
            &&& out.height == rect.height
            &&& forall|x: int, y: int, c: int|
                out@.has(x, y, c) ==> #[trigger] out@.channel(x, y, c) == source@.channel(
                    rect.x + x,
                    rect.y + y,
                    c,
                )
        },
{
    match smart_crop_rect(source.width, source.height, target_width, target_height) {
        None => None,
        Some(rect) => source.crop(rect),
    }
}

/// Crops `source` to the aspect ratio of the target, around its center, and
/// scales the crop to `target_width` by `target_height`. Nothing is returned
/// for a source that cannot be cropped and scaled so.
pub fn smart_crop_image(
    source: &Raster,
    target_width: u32,
    target_height: u32,
) -> (r: Option<Raster>)
    ensures
        r is Some <==> croppable(*source, target_width, target_height),
        r matches Some(out) ==> out.wf() && out.width == target_width && out.height
            == target_height,
{
    if source.width == 0 || source.height == 0 {
        return None;
    }
    match crop_to_target(source, target_width, target_height) {
        None => None,
        Some(cropped) => {
            if can_resample(cropped.width, cropped.height, target_width, target_height) {
                Some(cropped.resize_exact(target_width, target_height))
            } else {
                None
            }
        },
    }
}

/// How a band of a portrait frame came out.
#[derive(Clone, Copy, Debug, PartialEq, Eq, Structural)]
pub enum BandStatus {
    /// An image fills the band.
    Filled,
    /// The job has no image for the band. The band is black.
    Empty,
    /// The image for the band was not decoded or cannot be cropped and
    /// scaled. The band is black.
    Skipped,
}

/// How band `i` of a frame `width` wide with bands `band_height` high comes
/// out for the images in `images`, where an image that was not decoded is
/// given as `None`.
pub open spec fn band_status(
    images: Seq<Option<Raster>>,
    i: int,
    width: u32,
    band_height: u32,
) -> BandStatus {
    if i >= images.len() {
        BandStatus::Empty
    } else if images[i] matches Some(source) && croppable(source, width, band_height) {
        BandStatus::Filled
    } else {
        BandStatus::Skipped
    }
}

/// A portrait frame and how each of its bands came out, top to bottom.
pub struct StackedFrame {
    pub raster: Raster,
    pub bands: Vec<BandStatus>,
}

/// Every pixel of `frame` that lies in a band which `statuses` does not call
/// filled, or below the bands, is black.
pub open spec fn unfilled_bands_are_black(frame: Raster, statuses: Seq<BandStatus>) -> bool {
    forall|x: int, y: int, c: int|
        frame@.has(x, y, c) && (band_of_row(frame.height, y) == BANDS || statuses[band_of_row(
            frame.height,
            y,
        )] != BandStatus::Filled) ==> #[trigger] frame@.channel(x, y, c) == 0
}

/// `frame` holds `pictures` stacked in a frame of `width` by `height`, and
/// there is a picture for exactly the bands that `statuses` calls filled.
pub open spec fn shows_pictures(
    frame: Raster,
    statuses: Seq<BandStatus>,
    pictures: Seq<Option<Raster>>,
    width: u32,
    height: u32,
) -> bool {
    &&& pictures.len() == BANDS
    &&& forall|i: int|
        0 <= i < BANDS ==> (band_fits(#[trigger] pictures[i], width, (height / 3) as u32)
            <==> statuses[i] == BandStatus::Filled)
    &&& frame.pixels@ == stacked_bytes(pictures, width, height)
}

/// Prepares the picture of band `i`: the image for it, cropped and scaled.
fn prepare_band(
    images: &Vec<Option<Raster>>,
    i: usize,
    width: u32,
    band_height: u32,
) -> (r: (Option<Raster>, BandStatus))
    ensures
        r.1 == band_status(images@, i as int, width, band_height),
        band_fits(r.0, width, band_height) <==> r.1 == BandStatus::Filled,
        r.0 is Some <==> r.1 == BandStatus::Filled,
{
    if i >= images.len() {
        return (None, BandStatus::Empty);
    }
    match &images[i] {
        None => (None, BandStatus::Skipped),
        Some(source) => match smart_crop_image(source, width, band_height) {
            None => (None, BandStatus::Skipped),
            Some(picture) => (Some(picture), BandStatus::Filled),
        },
    }
}

/// Makes a portrait frame of `width` by `height` from up to three images,
/// where an image that was not decoded is given as `None`. Each image is
/// cropped to the shape of its band and scaled to fill it. A band without an
/// image, or with one that cannot be used, stays black, and the frame is made
/// all the same. Images after the third are not looked at.
///
/// Nothing is returned for a frame too large to be held in memory.
pub fn compose_stacked(
    images: &Vec<Option<Raster>>,
    width: u32,
    height: u32,
) -> (r: Option<StackedFrame>)
    ensures
        r is Some <==> buffer_fits(width as int, height as int),
        r matches Some(frame) ==> {
            &&& frame.raster.wf()
            &&& frame.raster.width == width
            &&& frame.raster.height == height
            &&& frame.bands@.len() == BANDS
            &&& forall|i: int|
                0 <= i < BANDS ==> #[trigger] frame.bands@[i] == band_status(
                    images@,
                    i,
                    width,
                    (height / 3) as u32,
                )
            &&& exists|pictures: Seq<Option<Raster>>| #[trigger]
                shows_pictures(frame.raster, frame.bands@, pictures, width, height)
            &&& unfilled_bands_are_black(frame.raster, frame.bands@)
        },
{
    let band_height: u32 = height / 3;
    let (first, first_status) = prepare_band(images, 0, width, band_height);
    let (second, second_status) = prepare_band(images, 1, width, band_height);
    let (third, third_status) = prepare_band(images, 2, width, band_height);
    let mut pictures: Vec<Option<Raster>> = Vec::new();
    pictures.push(first);
    pictures.push(second);
    pictures.push(third);
    let mut bands: Vec<BandStatus> = Vec::new();
    bands.push(first_status);
    bands.push(second_status);
    bands.push(third_status);
    match stack_bands(&pictures, width, height) {
        None => None,
        Some(raster) => {
            let frame = StackedFrame { raster, bands };
            proof {
                assert(shows_pictures(frame.raster, frame.bands@, pictures@, width, height));
                assert forall|x: int, y: int, c: int|
                    frame.raster@.has(x, y, c) && (band_of_row(height, y) == BANDS
                        || frame.bands@[band_of_row(height, y)]
                        != BandStatus::Filled) implies #[trigger] frame.raster@.channel(x, y, c)
                    == 0 by {
                    lemma_stacked_pixels(pictures@, width, height, x, y, c);
                }
            }
            Some(frame)
        },
    }
}

/// Makes a portrait frame of the standard size from up to three images, as
/// `compose_stacked` does.
pub fn create_mobile_stacked_frame(images: &Vec<Option<Raster>>) -> (frame: StackedFrame)
    ensures
        frame.raster.wf(),
        frame.raster.width == STACKED_WIDTH,
        frame.raster.height == STACKED_HEIGHT,
        frame.bands@.len() == BANDS,
        forall|i: int|
            0 <= i < BANDS ==> #[trigger] frame.bands@[i] == band_status(
                images@,
                i,
                STACKED_WIDTH,
                (STACKED_HEIGHT / 3) as u32,
            ),
        exists|pictures: Seq<Option<Raster>>| #[trigger]
            shows_pictures(frame.raster, frame.bands@, pictures, STACKED_WIDTH, STACKED_HEIGHT),
        unfilled_bands_are_black(frame.raster, frame.bands@),
{
    compose_stacked(images, STACKED_WIDTH, STACKED_HEIGHT).unwrap()
}

/// `source` can be scaled to fit a frame of `width` by `height`: it is a
/// picture with at least one pixel, the frame is not empty, and the source
/// can be resampled to the size at which it fits.
pub open spec fn fittable(source: Raster, width: u32, height: u32) -> bool {
    &&& source.wf()
    &&& source.width > 0
    &&& source.height > 0
    &&& width > 0
    &&& height > 0
    &&& {
        let rect = letterbox(source.width, source.height, width, height);
        resample_fits(
            source.width as int,
            source.height as int,
            rect.width as int,
            rect.height as int,
        )
    }
}

/// `frame` is a black frame of `width` by `height` on which `scaled`, a
/// picture of the size of `rect`, lies where `rect` says.
pub open spec fn shows_scaled(
    frame: Raster,
    scaled: Raster,
    rect: crate::geometry::Rect,
    width: u32,
    height: u32,
) -> bool {
    &&& scaled.wf()
    &&& scaled.width == rect.width
    &&& scaled.height == rect.height
    &&& forall|row: int|
        0 <= row < height ==> #[trigger] frame@.row(row) == placed_row(
            scaled,
            rect.x,
            rect.y,
            width,
            row,
        )
    &&& forall|cx: int, cy: int, c: int|
        frame@.has(cx, cy, c) ==> #[trigger] frame@.channel(cx, cy, c) == (if rect.x <= cx
            < rect.x + rect.width && rect.y <= cy < rect.y + rect.height {
            scaled@.channel(cx - rect.x, cy - rect.y, c)
        } else {
            0u8
        })
}

/// Makes a landscape frame of `width` by `height` from one image: the image
/// is scaled to fit the frame with its aspect ratio kept, and centered on
/// black. Nothing is returned for an image that cannot be scaled so, or for a
/// frame too large to be held in memory.
pub fn letterbox_image(source: &Raster, width: u32, height: u32) -> (r: Option<Raster>)
    ensures
        r is Some <==> fittable(*source, width, height) && buffer_fits(
            width as int,
            height as int,
        ),
        r matches Some(frame) ==> {
            &&& frame.wf()
            &&& frame.width == width
            &&& frame.height == height
            &&& exists|scaled: Raster| #[trigger]
                shows_scaled(
                    frame,
                    scaled,
                    letterbox(source.width, source.height, width, height),
                    width,
                    height,
                )
        },
{
    if !source.is_well_formed() {
        return None;
    }
    match letterbox_rect(source.width, source.height, width, height) {
        None => None,
        Some(rect) => {
            if !can_resample(source.width, source.height, rect.width, rect.height) {
                return None;
            }
            let scaled = source.resize_exact(rect.width, rect.height);
            match place_on_blank(&scaled, rect.x, rect.y, width, height) {
                None => None,
                Some(frame) => {
                    proof {
                        assert(shows_scaled(frame, scaled, rect, width, height));
                    }
                    Some(frame)
                },
            }
        },
    }
}

/// The frame of a job: its index, the name under which it is stored, its
/// pixels, and, for a portrait frame, how each band came out.
pub struct CompositedFrame {
    pub frame_index: usize,
    pub file_name: String,
    pub raster: Raster,
    pub bands: Vec<BandStatus>,
}

/// Why a landscape frame of `width` by `height` cannot be made from
/// `images`, if it cannot.
pub open spec fn single_frame_error(images: Seq<Option<Raster>>, width: u32, height: u32) -> Option<
    FrameError,
> {
    if width == 0 || height == 0 {
        Some(FrameError::EmptyFrame)
    } else if !buffer_fits(width as int, height as int) {
        Some(FrameError::FrameTooLarge)
    } else if images.len() == 0 {
        Some(FrameError::MissingImage)
    } else if !(images[0] matches Some(source) && fittable(source, width, height)) {
        Some(FrameError::ImageDecodeError)
    } else {
        None
    }
}

/// What holds of the frame that a portrait job makes from `images`.
pub open spec fn is_stacked_result(frame: CompositedFrame, images: Seq<Option<Raster>>) -> bool {
    &&& frame.raster.width == STACKED_WIDTH
    &&& frame.raster.height == STACKED_HEIGHT
    &&& frame.bands@.len() == BANDS
    &&& forall|i: int|
        0 <= i < BANDS ==> #[trigger] frame.bands@[i] == band_status(
            images,
            i,
            STACKED_WIDTH,
            (STACKED_HEIGHT / 3) as u32,
        )
    &&& exists|pictures: Seq<Option<Raster>>| #[trigger]
        shows_pictures(frame.raster, frame.bands@, pictures, STACKED_WIDTH, STACKED_HEIGHT)
    &&& unfilled_bands_are_black(frame.raster, frame.bands@)
}

/// What holds of the frame of `width` by `height` that a landscape job makes
/// from `images`.
pub open spec fn is_single_result(
    frame: CompositedFrame,
    images: Seq<Option<Raster>>,
    width: u32,
    height: u32,
) -> bool {
    &&& frame.raster.width == width
    &&& frame.raster.height == height
    &&& frame.bands@.len() == 0
    &&& exists|scaled: Raster| #[trigger]
        shows_scaled(
            frame.raster,
            scaled,
            letterbox(images[0]->0.width, images[0]->0.height, width, height),
            width,
            height,
        )
}

/// Makes the frame of a portrait job.
fn process_stacked_job(job: &FrameJob, images: &Vec<Option<Raster>>) -> (frame: CompositedFrame)
    ensures
        frame.frame_index == job.frame_index,
        frame.file_name@ == frame_name(job.frame_index as nat),
        frame.raster.wf(),
        is_stacked_result(frame, images@),
{
    let stacked = create_mobile_stacked_frame(images);
    let frame = CompositedFrame {
        frame_index: job.frame_index,
        file_name: frame_file_name(job.frame_index),
        raster: stacked.raster,
        bands: stacked.bands,
    };
    proof {
        let pictures = choose|pictures: Seq<Option<Raster>>| #[trigger]
            shows_pictures(
                stacked.raster,
                stacked.bands@,
                pictures,
                STACKED_WIDTH,
                STACKED_HEIGHT,
            );
        assert(shows_pictures(
            frame.raster,
            frame.bands@,
            pictures,
            STACKED_WIDTH,
            STACKED_HEIGHT,
        ));
    }
    frame
}

/// Makes the frame of a landscape job.
fn process_single_job(job: &FrameJob, images: &Vec<Option<Raster>>, width: u32, height: u32) -> (r:
    Result<CompositedFrame, FrameError>)
    ensures
        r matches Err(e) ==> single_frame_error(images@, width, height) == Some(e),
        r matches Ok(frame) ==> {
            &&& single_frame_error(images@, width, height) is None
            &&& frame.frame_index == job.frame_index
            &&& frame.file_name@ == frame_name(job.frame_index as nat)
            &&& frame.raster.wf()
            &&& is_single_result(frame, images@, width, height)
        },
{
    if width == 0 || height == 0 {
        return Err(FrameError::EmptyFrame);
    }
    proof {
        assert(0 <= (width as int) * (height as int) * 3 <= 0xFFFF_FFFF * 0xFFFF_FFFF * 3)
            by (nonlinear_arith)
            requires
                0 <= width <= 0xFFFF_FFFF,
                0 <= height <= 0xFFFF_FFFF,
        ;
    }
    let len: u128 = (width as u128) * (height as u128) * 3;
    if len > isize::MAX as u128 {
        return Err(FrameError::FrameTooLarge);
    }
    if images.len() == 0 {
        return Err(FrameError::MissingImage);
    }
    let framed = match &images[0] {
        None => None,
        Some(source) => letterbox_image(source, width, height),
    };
    match framed {
        None => Err(FrameError::ImageDecodeError),
        Some(raster) => {
            let ghost rect = letterbox(images@[0]->0.width, images@[0]->0.height, width, height);
            let ghost scaled = choose|scaled: Raster| #[trigger]
                shows_scaled(raster, scaled, rect, width, height);
            let frame = CompositedFrame {
                frame_index: job.frame_index,
                file_name: frame_file_name(job.frame_index),
                raster,
                bands: Vec::new(),
            };
            proof {
                assert(shows_scaled(frame.raster, scaled, rect, width, height));
            }
            Ok(frame)
        },
    }
}

/// Makes the frame of `job` from its images, given in the order of the
/// job's references, with `None` for an image that was not decoded.
///
/// A landscape job makes a frame of `width` by `height` from its first
/// image, and fails where it has none or the image cannot be used. A
/// portrait job makes a frame of the standard portrait size whatever
/// `width` and `height` are, and never fails: what cannot be used leaves
/// its band black.
pub fn process_frame_job(
    job: &FrameJob,
    images: &Vec<Option<Raster>>,
    width: u32,
    height: u32,
) -> (r: Result<CompositedFrame, FrameError>)
    ensures
        r matches Ok(frame) ==> {
            &&& frame.frame_index == job.frame_index
            &&& frame.file_name@ == frame_name(job.frame_index as nat)
            &&& frame.raster.wf()
        },
        job.layout == Layout::StackedTriple ==> {
            &&& r matches Ok(frame)
            &&& is_stacked_result(frame, images@)
        },
        job.layout == Layout::Single ==> {
            &&& r matches Err(e) ==> single_frame_error(images@, width, height) == Some(e)
            &&& r matches Ok(frame) ==> {
                &&& single_frame_error(images@, width, height) is None
                &&& is_single_result(frame, images@, width, height)
            }
        },
{
    match job.layout {
        Layout::StackedTriple => Ok(process_stacked_job(job, images)),
        Layout::Single => process_single_job(job, images, width, height),
    }
}

} // verus!
