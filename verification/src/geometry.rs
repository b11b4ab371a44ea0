//! Crop and placement rectangles, in whole pixels.
//!
//! Aspect ratios are compared by cross-multiplication and every quotient is
//! rounded to the nearest pixel, halves upward, so no result depends on
//! floating point.

use vstd::prelude::*;

verus! {

/// An axis-aligned rectangle: `width` by `height` pixels, with its top-left
/// corner at `(x, y)`.
#[derive(Clone, Copy, Debug, PartialEq, Eq, Structural)]
pub struct Rect {
    pub x: u32,
    pub y: u32,
    pub width: u32,
    pub height: u32,
}

impl Rect {
    /// The rectangle lies inside an area of `width` by `height` pixels.
    pub open spec fn fits_within(self, width: int, height: int) -> bool {
        self.x + self.width <= width && self.y + self.height <= height
    }
}

/// `numerator / denominator` rounded to the nearest integer, halves upward.
pub open spec fn rounded_quotient(numerator: int, denominator: int) -> int
    recommends
        numerator >= 0,
        denominator > 0,
{
    (2 * numerator + denominator) / (2 * denominator)
}

/// An image of `width` by `height` is relatively wider than a target of
/// `target_width` by `target_height`: its aspect ratio is strictly greater.
pub open spec fn relatively_wider(
    width: int,
    height: int,
    target_width: int,
    target_height: int,
) -> bool {
    width * target_height > height * target_width
}

/// The centered part of a `width` by `height` source that has the aspect
/// ratio of the target. A relatively wider source keeps its height and loses
/// width on both sides; any other source keeps its width and loses height at
/// top and bottom.
pub open spec fn smart_crop(width: u32, height: u32, target_width: u32, target_height: u32) -> Rect
    recommends
        target_width > 0,
        target_height > 0,
{
    if relatively_wider(width as int, height as int, target_width as int, target_height as int) {
        let w = rounded_quotient(height * target_width, target_height as int);
        Rect { x: ((width - w) / 2) as u32, y: 0, width: w as u32, height }
    } else {
        let h = rounded_quotient(width * target_height, target_width as int);
        Rect { x: 0, y: ((height - h) / 2) as u32, width, height: h as u32 }
    }
}

/// A quotient of a product that stays below `bound * denominator` rounds to
/// at most `bound`.
pub proof fn lemma_rounded_quotient_bounded(numerator: int, denominator: int, bound: int)
    requires
        numerator >= 0,
        denominator > 0,
        numerator <= bound * denominator,
    ensures
        0 <= rounded_quotient(numerator, denominator) <= bound,
{
    let d2 = 2 * denominator;
    let n2 = 2 * numerator + denominator;
    assert(n2 < (bound + 1) * d2) by (nonlinear_arith)
        requires
            numerator <= bound * denominator,
            denominator > 0,
            d2 == 2 * denominator,
            n2 == 2 * numerator + denominator,
    ;
    vstd::arithmetic::div_mod::lemma_div_pos_is_pos(n2, d2);
    if n2 / d2 >= bound + 1 {
        vstd::arithmetic::div_mod::lemma_fundamental_div_mod(n2, d2);
        vstd::arithmetic::div_mod::lemma_mod_bound(n2, d2);
        assert(d2 * (n2 / d2) >= d2 * (bound + 1)) by (nonlinear_arith)
            requires
                n2 / d2 >= bound + 1,
                d2 > 0,
        ;
        assert(d2 * (bound + 1) == (bound + 1) * d2) by (nonlinear_arith);
    }
}

/// A rounded quotient is off by half the denominator at most, however it is
/// scaled back.
pub proof fn lemma_rounded_quotient_is_nearest(numerator: int, denominator: int)
    requires
        numerator >= 0,
        denominator > 0,
    ensures
        -denominator <= 2 * (rounded_quotient(numerator, denominator) * denominator - numerator)
            <= denominator,
{
    let q = rounded_quotient(numerator, denominator);
    let top = 2 * numerator + denominator;
    let d2 = 2 * denominator;
    vstd::arithmetic::div_mod::lemma_fundamental_div_mod(top, d2);
    vstd::arithmetic::div_mod::lemma_mod_bound(top, d2);
    assert(d2 * q == 2 * (q * denominator)) by (nonlinear_arith)
        requires
            d2 == 2 * denominator,
    ;
}

/// The smart crop has the aspect ratio of the target as nearly as whole
/// pixels allow: the side that was cut is within half a pixel of what the
/// ratio asks for, and the rectangle lies inside the source.
pub proof fn lemma_smart_crop_matches_target(
    width: u32,
    height: u32,
    target_width: u32,
    target_height: u32,
)
    requires
        target_width > 0,
        target_height > 0,
    ensures
        ({
            let rect = smart_crop(width, height, target_width, target_height);
            let wider = relatively_wider(
                width as int,
                height as int,
                target_width as int,
                target_height as int,
            );
            &&& rect.fits_within(width as int, height as int)
            &&& wider ==> rect.height == height && -target_height <= 2 * (rect.width
                * target_height - height * target_width) <= target_height
            &&& !wider ==> rect.width == width && -target_width <= 2 * (rect.height
                * target_width - width * target_height) <= target_width
        }),
{
    let rect = smart_crop(width, height, target_width, target_height);
    lemma_area_fits(width, target_height);
    lemma_area_fits(height, target_width);
    if relatively_wider(width as int, height as int, target_width as int, target_height as int) {
        lemma_rounded_quotient_bounded(
            height * target_width,
            target_height as int,
            width as int,
        );
        lemma_rounded_quotient_is_nearest(height * target_width, target_height as int);
        assert(rect.width == rounded_quotient(height * target_width, target_height as int));
    } else {
        lemma_rounded_quotient_bounded(
            width * target_height,
            target_width as int,
            height as int,
        );
        lemma_rounded_quotient_is_nearest(width * target_height, target_width as int);
        assert(rect.height == rounded_quotient(width * target_height, target_width as int));
    }
}

/// The product of two 32-bit sides fits in 64 bits.
pub proof fn lemma_area_fits(a: u32, b: u32)
    ensures
        0 <= a * b <= 0xFFFF_FFFE_0000_0001,
{
    assert(0 <= a * b <= 0xFFFF_FFFF * 0xFFFF_FFFF) by (nonlinear_arith)
        requires
            0 <= a <= 0xFFFF_FFFF,
            0 <= b <= 0xFFFF_FFFF,
    ;
}

/// Rounds `numerator / denominator` to the nearest integer, halves upward.
pub fn round_div(numerator: u64, denominator: u64) -> (q: u64)
    requires
        denominator > 0,
    ensures
        q == rounded_quotient(numerator as int, denominator as int),
{
    let n: u128 = 2 * (numerator as u128) + (denominator as u128);
    let d: u128 = 2 * (denominator as u128);
    let q: u128 = n / d;
    proof {
        assert(numerator as int <= (numerator as int) * (denominator as int))
            by (nonlinear_arith)
            requires
                numerator >= 0,
                denominator >= 1,
        ;
        lemma_rounded_quotient_bounded(numerator as int, denominator as int, numerator as int);
    }
    q as u64
}

/// Computes the smart crop of a `width` by `height` source for a target of
/// `target_width` by `target_height`. A target with an empty side has no
/// aspect ratio, and nothing is returned for it.
pub fn smart_crop_rect(
    width: u32,
    height: u32,
    target_width: u32,
    target_height: u32,
) -> (r: Option<Rect>)
    ensures
        r is None <==> target_width == 0 || target_height == 0,
        r matches Some(rect) ==> {
            &&& rect == smart_crop(width, height, target_width, target_height)
            &&& rect.fits_within(width as int, height as int)
            &&& relatively_wider(
                width as int,
                height as int,
                target_width as int,
                target_height as int,
            ) ==> {
                &&& rect.width == rounded_quotient(height * target_width, target_height as int)
                &&& rect.x == (width - rect.width) / 2
                &&& rect.y == 0
                &&& rect.height == height
            }
            &&& !relatively_wider(
                width as int,
                height as int,
                target_width as int,
                target_height as int,
            ) ==> {
                &&& rect.height == rounded_quotient(width * target_height, target_width as int)
                &&& rect.y == (height - rect.height) / 2
                &&& rect.x == 0
                &&& rect.width == width
            }
        },
{
    if target_width == 0 || target_height == 0 {
        return None;
    }
    proof {
        lemma_area_fits(width, target_height);
        lemma_area_fits(height, target_width);
    }
    let across: u64 = (width as u64) * (target_height as u64);
    let down: u64 = (height as u64) * (target_width as u64);
    if across > down {
        proof {
            lemma_rounded_quotient_bounded(down as int, target_height as int, width as int);
        }
        let w: u32 = round_div(down, target_height as u64) as u32;
        Some(Rect { x: (width - w) / 2, y: 0, width: w, height })
    } else {
        proof {
            lemma_rounded_quotient_bounded(across as int, target_width as int, height as int);
        }
        let h: u32 = round_div(across, target_width as u64) as u32;
        Some(Rect { x: 0, y: (height - h) / 2, width, height: h })
    }
}

/// `value`, or one where `value` is less.
pub open spec fn at_least_one(value: int) -> int {
    if value < 1 {
        1
    } else {
        value
    }
}

/// Where a `width` by `height` source comes to lie when it is scaled to fit
/// a target of `target_width` by `target_height` with its aspect ratio kept:
/// the side that limits it fills the target, the other side is scaled along,
/// to no less than one pixel, and the scaled source is centered. What the
/// rectangle leaves of the target is padding.
pub open spec fn letterbox(width: u32, height: u32, target_width: u32, target_height: u32) -> Rect
    recommends
        width > 0,
        height > 0,
        target_width > 0,
        target_height > 0,
{
    if relatively_wider(width as int, height as int, target_width as int, target_height as int) {
        let h = at_least_one(rounded_quotient(height * target_width, width as int));
        Rect { x: 0, y: ((target_height - h) / 2) as u32, width: target_width, height: h as u32 }
    } else {
        let w = at_least_one(rounded_quotient(width * target_height, height as int));
        Rect { x: ((target_width - w) / 2) as u32, y: 0, width: w as u32, height: target_height }
    }
}

/// A source with the aspect ratio of the target is scaled to the whole
/// target: nothing is padded.
pub proof fn lemma_letterbox_same_ratio_fills(
    width: u32,
    height: u32,
    target_width: u32,
    target_height: u32,
)
    requires
        width > 0,
        height > 0,
        target_width > 0,
        target_height > 0,
        width * target_height == height * target_width,
    ensures
        letterbox(width, height, target_width, target_height) == (Rect {
            x: 0,
            y: 0,
            width: target_width,
            height: target_height,
        }),
{
    let n = width * target_height;
    let d = height as int;
    assert(2 * n + d == (2 * d) * target_width + d) by (nonlinear_arith)
        requires
            n == d * target_width,
    ;
    vstd::arithmetic::div_mod::lemma_fundamental_div_mod_converse(
        2 * n + d,
        2 * d,
        target_width as int,
        d,
    );
}

/// Computes where a `width` by `height` source comes to lie in a target of
/// `target_width` by `target_height`. Nothing is returned where the source
/// or the target has an empty side.
pub fn letterbox_rect(
    width: u32,
    height: u32,
    target_width: u32,
    target_height: u32,
) -> (r: Option<Rect>)
    ensures
        r is None <==> width == 0 || height == 0 || target_width == 0 || target_height == 0,
        r matches Some(rect) ==> {
            &&& rect == letterbox(width, height, target_width, target_height)
            &&& rect.fits_within(target_width as int, target_height as int)
            &&& rect.width >= 1
            &&& rect.height >= 1
            &&& rect.width == target_width || rect.height == target_height
            &&& rect.x == (target_width - rect.width) / 2
            &&& rect.y == (target_height - rect.height) / 2
        },
{
    if width == 0 || height == 0 || target_width == 0 || target_height == 0 {
        return None;
    }
    proof {
        lemma_area_fits(width, target_height);
        lemma_area_fits(height, target_width);
    }
    let across: u64 = (width as u64) * (target_height as u64);
    let down: u64 = (height as u64) * (target_width as u64);
    if across > down {
        proof {
            assert(down as int <= (target_height as int) * (width as int)) by (nonlinear_arith)
                requires
                    down < across,
                    across == width * target_height,
            ;
            lemma_rounded_quotient_bounded(down as int, width as int, target_height as int);
        }
        let scaled: u32 = round_div(down, width as u64) as u32;
        let h: u32 = if scaled < 1 {
            1
        } else {
            scaled
        };
        Some(Rect { x: 0, y: (target_height - h) / 2, width: target_width, height: h })
    } else {
        proof {
            assert(across as int <= (target_width as int) * (height as int)) by (nonlinear_arith)
                requires
                    across <= down,
                    down == height * target_width,
            ;
            lemma_rounded_quotient_bounded(across as int, height as int, target_width as int);
        }
        let scaled: u32 = round_div(across, height as u64) as u32;
        let w: u32 = if scaled < 1 {
            1
        } else {
            scaled
        };
        Some(Rect { x: (target_width - w) / 2, y: 0, width: w, height: target_height })
    }
}

} // verus!
