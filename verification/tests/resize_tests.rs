//! What integers decide of a resize request.

use imzip::resize::{resize_plan, ResizePlan, ResizeSpec};

const W: u32 = 1000;
const H: u32 = 500;

fn dims(width: Option<u32>, height: Option<u32>) -> ResizeSpec {
    ResizeSpec::Dimensions { width, height }
}

#[test]
fn exact_dimensions_are_clamped_unless_upscaling() {
    assert_eq!(resize_plan(W, H, &dims(Some(200), Some(100)), false), ResizePlan::Exact(200, 100));
    assert_eq!(resize_plan(W, H, &dims(Some(2000), Some(900)), false), ResizePlan::Keep);
    assert_eq!(resize_plan(W, H, &dims(Some(2000), Some(900)), true), ResizePlan::Exact(2000, 900));
    assert_eq!(resize_plan(W, H, &dims(Some(500), Some(900)), false), ResizePlan::Exact(500, 500));
    assert_eq!(resize_plan(W, H, &dims(Some(0), Some(100)), true), ResizePlan::Exact(1, 100));
}

#[test]
fn one_dimension_scales_by_ratio() {
    assert_eq!(resize_plan(W, H, &dims(Some(500), None), false), ResizePlan::Ratio { num: 500, den: 1000 });
    assert_eq!(resize_plan(W, H, &dims(None, Some(250)), false), ResizePlan::Ratio { num: 250, den: 500 });
    assert_eq!(resize_plan(W, H, &dims(Some(2000), None), false), ResizePlan::Keep);
    assert_eq!(resize_plan(W, H, &dims(Some(2000), None), true), ResizePlan::Ratio { num: 2000, den: 1000 });
}

#[test]
fn max_and_edge_modes() {
    assert_eq!(resize_plan(W, H, &ResizeSpec::MaxWidth(400), false), ResizePlan::Ratio { num: 400, den: 1000 });
    assert_eq!(resize_plan(W, H, &ResizeSpec::MaxWidth(1200), false), ResizePlan::Keep);
    assert_eq!(resize_plan(W, H, &ResizeSpec::MaxHeight(250), false), ResizePlan::Ratio { num: 250, den: 500 });
    assert_eq!(resize_plan(W, H, &ResizeSpec::LongestEdge(500), false), ResizePlan::Ratio { num: 500, den: 1000 });
    assert_eq!(resize_plan(W, H, &ResizeSpec::LongestEdge(1500), true), ResizePlan::Keep);
    assert_eq!(resize_plan(W, H, &ResizeSpec::ShortestEdge(250), false), ResizePlan::Ratio { num: 250, den: 500 });
    assert_eq!(resize_plan(W, H, &ResizeSpec::ShortestEdge(800), false), ResizePlan::Keep);
    assert_eq!(resize_plan(W, H, &ResizeSpec::ShortestEdge(800), true), ResizePlan::Ratio { num: 800, den: 500 });
    assert_eq!(resize_plan(W, H, &ResizeSpec::ShortestEdge(500), true), ResizePlan::Keep);
}

#[test]
fn float_modes_pass_through_and_zero_size_is_kept() {
    let p = 50f32.to_bits();
    assert_eq!(resize_plan(W, H, &ResizeSpec::Percent(p), false), ResizePlan::Percent(p));
    assert_eq!(resize_plan(W, H, &ResizeSpec::MaxMegapixels(p), false), ResizePlan::Megapixels(p));
    assert_eq!(resize_plan(0, H, &ResizeSpec::Percent(p), true), ResizePlan::Keep);
}

#[test]
fn exact_dimensions() {
    assert_eq!(resize_plan(1000, 500, &dims(Some(200), Some(200)), false), ResizePlan::Exact(200, 200));
}

#[test]
fn exact_dimensions_upscale_clamped() {
    // Both dimensions grow -> no-op without --allow-upscale.
    assert_eq!(resize_plan(1000, 500, &dims(Some(2000), Some(900)), false), ResizePlan::Keep);
    assert_eq!(resize_plan(1000, 500, &dims(Some(2000), Some(900)), true), ResizePlan::Exact(2000, 900));
}

#[test]
fn exact_dimensions_mixed_clamp() {
    // Width shrinks, height would grow -> height clamped to original.
    assert_eq!(resize_plan(1000, 500, &dims(Some(500), Some(900)), false), ResizePlan::Exact(500, 500));
}

#[test]
fn same_size_is_noop() {
    assert_eq!(resize_plan(1000, 500, &dims(Some(1000), Some(500)), false), ResizePlan::Keep);
    assert_eq!(resize_plan(1000, 500, &dims(Some(1000), None), false), ResizePlan::Keep);
}

#[test]
fn zero_original_is_noop() {
    assert_eq!(resize_plan(0, 0, &ResizeSpec::Percent(50f32.to_bits()), false), ResizePlan::Keep);
}
