//! Resize requests, and the integer part of turning one into target
//! dimensions.
//!
//! Scaled sizes are computed in floating point, which this library does not
//! hold: [`resize_plan`] decides everything that integers decide (no resize,
//! exact sizes, whether a scale would enlarge the image) and leaves the
//! scaling itself to its caller. The two modes with a fractional parameter
//! carry it as the bit pattern of its `f32` value (`f32::to_bits`).

use vstd::prelude::*;

verus! {

/// A resize request. Modes are mutually exclusive.
#[derive(Clone, Copy, Debug, PartialEq, Eq, Structural)]
pub enum ResizeSpec {
    /// Width and/or height. Both = exact size; one alone = scale keeping aspect ratio.
    Dimensions { width: Option<u32>, height: Option<u32> },
    /// Scale factor in percent (50.0 = half size), as `f32` bits.
    Percent(u32),
    /// Downscale so width <= value (no-op if already smaller).
    MaxWidth(u32),
    /// Downscale so height <= value (no-op if already smaller).
    MaxHeight(u32),
    /// Downscale so max(w, h) == value (no-op if already smaller).
    LongestEdge(u32),
    /// Scale so min(w, h) == value (upscale only when allowed).
    ShortestEdge(u32),
    /// Downscale so w*h <= value megapixels (no-op if already smaller), as `f32` bits.
    MaxMegapixels(u32),
}

/// Whether `bits` is the bit pattern of a positive, finite `f32`: sign bit
/// clear, exponent not all ones, and not zero.
pub open spec fn positive_finite_f32(bits: u32) -> bool {
    bits & 0x8000_0000 == 0 && bits & 0x7F80_0000 != 0x7F80_0000 && bits != 0
}

pub fn is_positive_finite_f32(bits: u32) -> (b: bool)
    ensures
        b == positive_finite_f32(bits),
{
    bits & 0x8000_0000 == 0 && bits & 0x7F80_0000 != 0x7F80_0000 && bits != 0
}


/// What a resize request asks of an image, as far as integers decide it.
#[derive(Clone, Copy, Debug, PartialEq, Eq, Structural)]
pub enum ResizePlan {
    /// No resize.
    Keep,
    /// Resize to exactly these dimensions.
    Exact(u32, u32),
    /// Scale both sides by `num / den` (rounded, at least 1 pixel); no resize
    /// if that gives the original size.
    Ratio { num: u32, den: u32 },
    /// Scale both sides by the percentage (`f32` bits) over 100.
    Percent(u32),
    /// Scale down to at most this many megapixels (`f32` bits), if larger.
    Megapixels(u32),
}

/// A scale by `num / den`: no resize when it would enlarge the image and
/// upscaling is not allowed.
pub open spec fn ratio_plan(num: u32, den: u32, allow_upscale: bool) -> ResizePlan {
    if !allow_upscale && num >= den {
        ResizePlan::Keep
    } else {
        ResizePlan::Ratio { num, den }
    }
}

pub open spec fn min_u32(a: u32, b: u32) -> u32 {
    if a < b { a } else { b }
}

/// The plan for an image of `w` x `h`: both dimensions given resize to
/// exactly them (clamped to the original unless upscaling is allowed); one
/// dimension, the max and edge modes scale by the ratio of the asked size to
/// the matching side; the max modes and the longest edge only shrink; the
/// shortest edge scales to its value, enlarging only when allowed.
pub open spec fn plan_spec(w: u32, h: u32, spec: ResizeSpec, allow_upscale: bool) -> ResizePlan {
    if w == 0 || h == 0 {
        ResizePlan::Keep
    } else {
        match spec {
            ResizeSpec::Dimensions { width, height } => match (width, height) {
                (Some(tw0), Some(th0)) => {
                    let tw = if allow_upscale { tw0 } else { min_u32(tw0, w) };
                    let th = if allow_upscale { th0 } else { min_u32(th0, h) };
                    if tw == w && th == h {
                        ResizePlan::Keep
                    } else {
                        ResizePlan::Exact(if tw == 0 { 1 } else { tw }, if th == 0 { 1 } else { th })
                    }
                },
                (Some(tw), None) => ratio_plan(tw, w, allow_upscale),
                (None, Some(th)) => ratio_plan(th, h, allow_upscale),
                (None, None) => ResizePlan::Keep,
            },
            ResizeSpec::Percent(p) => ResizePlan::Percent(p),
            ResizeSpec::MaxWidth(m) => if w > m { ratio_plan(m, w, allow_upscale) } else { ResizePlan::Keep },
            ResizeSpec::MaxHeight(m) => if h > m { ratio_plan(m, h, allow_upscale) } else { ResizePlan::Keep },
            ResizeSpec::LongestEdge(m) => {
                let longest = if w > h { w } else { h };
                if longest > m { ratio_plan(m, longest, allow_upscale) } else { ResizePlan::Keep }
            },
            ResizeSpec::ShortestEdge(m) => {
                let shortest = min_u32(w, h);
                if shortest == m {
                    ResizePlan::Keep
                } else if shortest > m || allow_upscale {
                    ratio_plan(m, shortest, allow_upscale)
                } else {
                    ResizePlan::Keep
                }
            },
            ResizeSpec::MaxMegapixels(mp) => ResizePlan::Megapixels(mp),
        }
    }
}

fn ratio(num: u32, den: u32, allow_upscale: bool) -> (p: ResizePlan)
    ensures
        p == ratio_plan(num, den, allow_upscale),
{
    if !allow_upscale && num >= den {
        ResizePlan::Keep
    } else {
        ResizePlan::Ratio { num, den }
    }
}

/// Decides what resizing an image of `w` x `h` by `spec` takes. Unless
/// `allow_upscale`, it never enlarges: exact sizes are clamped to the
/// original, and scales of a ratio of at least 1 become no resize.
pub fn resize_plan(w: u32, h: u32, spec: &ResizeSpec, allow_upscale: bool) -> (p: ResizePlan)
    ensures
        p == plan_spec(w, h, *spec, allow_upscale),
        !allow_upscale ==> match p {
            ResizePlan::Exact(tw, th) => tw <= w && th <= h,
            ResizePlan::Ratio { num, den } => num < den,
            _ => true,
        },
        p matches ResizePlan::Ratio { den, .. } ==> den >= 1,
{
    if w == 0 || h == 0 {
        return ResizePlan::Keep;
    }
    match *spec {
        ResizeSpec::Dimensions { width, height } => match (width, height) {
            (Some(tw0), Some(th0)) => {
                let tw = if allow_upscale || tw0 < w { tw0 } else { w };
                let th = if allow_upscale || th0 < h { th0 } else { h };
                if tw == w && th == h {
                    ResizePlan::Keep
                } else {
                    ResizePlan::Exact(if tw == 0 { 1 } else { tw }, if th == 0 { 1 } else { th })
                }
            },
            (Some(tw), None) => ratio(tw, w, allow_upscale),
            (None, Some(th)) => ratio(th, h, allow_upscale),
            (None, None) => ResizePlan::Keep,
        },
        ResizeSpec::Percent(p) => ResizePlan::Percent(p),
        ResizeSpec::MaxWidth(m) => if w > m { ratio(m, w, allow_upscale) } else { ResizePlan::Keep },
        ResizeSpec::MaxHeight(m) => if h > m { ratio(m, h, allow_upscale) } else { ResizePlan::Keep },
        ResizeSpec::LongestEdge(m) => {
            let longest = if w > h { w } else { h };
            if longest > m { ratio(m, longest, allow_upscale) } else { ResizePlan::Keep }
        },
        ResizeSpec::ShortestEdge(m) => {
            let shortest = if w < h { w } else { h };
            if shortest == m {
                ResizePlan::Keep
            } else if shortest > m || allow_upscale {
                ratio(m, shortest, allow_upscale)
            } else {
                ResizePlan::Keep
            }
        },
        ResizeSpec::MaxMegapixels(mp) => ResizePlan::Megapixels(mp),
    }
}

/// What each mode asks of an image of `w` x `h`, side by side: the longest
/// edge, the maximum width and the maximum height shrink by the asked size
/// over the side they name (the larger side for the longest edge) when that
/// side is larger, and leave the image alone otherwise; the shortest edge
/// scales by the asked size over the smaller side, to a larger size only when
/// upscaling is allowed; one given dimension scales by itself over the
/// matching side, enlarging only when allowed; no dimension is no resize;
/// a percentage and a megapixel limit are handed on as they are.
pub proof fn lemma_plan_by_side(w: u32, h: u32, m: u32, allow_upscale: bool)
    requires
        w > 0,
        h > 0,
    ensures
        w >= h && w > m ==> plan_spec(w, h, ResizeSpec::LongestEdge(m), allow_upscale)
            == (ResizePlan::Ratio { num: m, den: w }),
        h >= w && h > m ==> plan_spec(w, h, ResizeSpec::LongestEdge(m), allow_upscale)
            == (ResizePlan::Ratio { num: m, den: h }),
        w <= m && h <= m ==> plan_spec(w, h, ResizeSpec::LongestEdge(m), allow_upscale) == ResizePlan::Keep,
        w > m ==> plan_spec(w, h, ResizeSpec::MaxWidth(m), allow_upscale) == (ResizePlan::Ratio { num: m, den: w }),
        w <= m ==> plan_spec(w, h, ResizeSpec::MaxWidth(m), allow_upscale) == ResizePlan::Keep,
        h > m ==> plan_spec(w, h, ResizeSpec::MaxHeight(m), allow_upscale) == (ResizePlan::Ratio { num: m, den: h }),
        h <= m ==> plan_spec(w, h, ResizeSpec::MaxHeight(m), allow_upscale) == ResizePlan::Keep,
        w <= h && w > m ==> plan_spec(w, h, ResizeSpec::ShortestEdge(m), allow_upscale)
            == (ResizePlan::Ratio { num: m, den: w }),
        h <= w && h > m ==> plan_spec(w, h, ResizeSpec::ShortestEdge(m), allow_upscale)
            == (ResizePlan::Ratio { num: m, den: h }),
        w <= h && w < m ==> plan_spec(w, h, ResizeSpec::ShortestEdge(m), allow_upscale)
            == (if allow_upscale { ResizePlan::Ratio { num: m, den: w } } else { ResizePlan::Keep }),
        h <= w && h < m ==> plan_spec(w, h, ResizeSpec::ShortestEdge(m), allow_upscale)
            == (if allow_upscale { ResizePlan::Ratio { num: m, den: h } } else { ResizePlan::Keep }),
        (w <= h && w == m) || (h <= w && h == m) ==> plan_spec(w, h, ResizeSpec::ShortestEdge(m), allow_upscale)
            == ResizePlan::Keep,
        plan_spec(w, h, ResizeSpec::Dimensions { width: Some(m), height: None }, allow_upscale)
            == (if allow_upscale || m < w { ResizePlan::Ratio { num: m, den: w } } else { ResizePlan::Keep }),
        plan_spec(w, h, ResizeSpec::Dimensions { width: None, height: Some(m) }, allow_upscale)
            == (if allow_upscale || m < h { ResizePlan::Ratio { num: m, den: h } } else { ResizePlan::Keep }),
        plan_spec(w, h, ResizeSpec::Dimensions { width: None, height: None }, allow_upscale) == ResizePlan::Keep,
        plan_spec(w, h, ResizeSpec::Percent(m), allow_upscale) == ResizePlan::Percent(m),
        plan_spec(w, h, ResizeSpec::MaxMegapixels(m), allow_upscale) == ResizePlan::Megapixels(m),
{
}

/// An image with no pixels is never resized, whatever the request.
pub proof fn lemma_plan_empty_image(w: u32, h: u32, spec: ResizeSpec, allow_upscale: bool)
    requires
        w == 0 || h == 0,
    ensures
        plan_spec(w, h, spec, allow_upscale) == ResizePlan::Keep,
{
}

/// Both dimensions given: the image is resized to exactly them (each at
/// least 1 pixel), each clamped to the original side unless upscaling is
/// allowed, and left alone when that is its own size.
pub proof fn lemma_plan_exact(w: u32, h: u32, tw: u32, th: u32, allow_upscale: bool)
    requires
        w > 0,
        h > 0,
        tw > 0,
        th > 0,
    ensures
        ({
            let cw = if allow_upscale || tw < w { tw } else { w };
            let ch = if allow_upscale || th < h { th } else { h };
            plan_spec(w, h, ResizeSpec::Dimensions { width: Some(tw), height: Some(th) }, allow_upscale)
                == (if cw == w && ch == h { ResizePlan::Keep } else { ResizePlan::Exact(cw, ch) })
        }),
{
}

} // verus!
