//! Where to capture the screen around a point.
use vstd::prelude::*;

verus! {

/// Width of the captured area, in physical pixels.
pub const IMG_WIDTH: u32 = 300;

/// Height of the captured area, in physical pixels.
pub const IMG_HEIGHT: u32 = 100;

/// A display: its size in logical pixels and its scale factor in percent
/// (a scale factor of 1.5 is `150`).
#[derive(Clone, Copy, Debug, PartialEq, Eq)]
pub struct DisplayDescriptor {
    pub width: u32,
    pub height: u32,
    pub scale_percent: u32,
}

/// The part of a display to capture, and the point in the captured image.
///
/// `left`, `top`, `width` and `height` are in the display's logical pixels;
/// `mouse_pos` is the point relative to the captured image, in physical pixels.
#[derive(Clone, Copy, Debug, PartialEq, Eq)]
pub struct CaptureRegion {
    pub left: u32,
    pub top: u32,
    pub width: u32,
    pub height: u32,
    pub mouse_pos: (i64, i64),
}

/// A display can be measured once its scale factor is at least one.
pub open spec fn display_ok(d: DisplayDescriptor) -> bool {
    d.scale_percent >= 100
}

/// The logical extent of a captured area on one axis: the physical size over
/// the scale factor, and never more than the display.
pub open spec fn logical_extent(physical: int, scale_percent: int, display: int) -> int {
    let l = physical * 100 / scale_percent;
    if l <= display { l } else { display }
}

/// Origin of the area and the point's position inside it, on one axis.
///
/// The area is centred on the point unless that would cross an edge of the
/// display, in which case it is pinned to that edge.
pub open spec fn axis_place(point: int, size: int, extent: int) -> (int, int) {
    let half = size / 2;
    if point < half {
        (0, point)
    } else if point < extent - half {
        (point - half, half)
    } else {
        (extent - size, size - (extent - point))
    }
}

/// A logical length in physical pixels, truncated toward zero.
pub open spec fn to_physical(logical: int, scale_percent: int) -> int {
    if logical >= 0 {
        logical * scale_percent / 100
    } else {
        -((-logical) * scale_percent / 100)
    }
}

/// The region that `compute_img_area` computes for `display` and `pos`.
pub open spec fn region_spec(display: DisplayDescriptor, pos: [i32; 2], r: CaptureRegion) -> bool {
    let w = logical_extent(IMG_WIDTH as int, display.scale_percent as int, display.width as int);
    let h = logical_extent(IMG_HEIGHT as int, display.scale_percent as int, display.height as int);
    let (left, x) = axis_place(pos[0] as int, w, display.width as int);
    let (top, y) = axis_place(pos[1] as int, h, display.height as int);
    &&& r.width == w
    &&& r.height == h
    &&& r.left == left
    &&& r.top == top
    &&& r.mouse_pos.0 == to_physical(x, display.scale_percent as int)
    &&& r.mouse_pos.1 == to_physical(y, display.scale_percent as int)
}

/// Places an area of `img_size` on an axis of `max_size`, around `mouse_point`.
/// Returns the area's origin and the point's position inside the area.
pub fn top_left(mouse_point: i32, img_size: u32, max_size: u32) -> (r: (u32, i64))
    requires
        img_size <= max_size,
    ensures
        r.0 as int == axis_place(mouse_point as int, img_size as int, max_size as int).0,
        r.1 as int == axis_place(mouse_point as int, img_size as int, max_size as int).1,
        r.0 + img_size <= max_size,
{
    let half: u32 = img_size / 2;
    let p: i64 = mouse_point as i64;
    if p < half as i64 {
        (0, p)
    } else if p < max_size as i64 - half as i64 {
        ((p - half as i64) as u32, half as i64)
    } else {
        (max_size - img_size, img_size as i64 - (max_size as i64 - p))
    }
}

/// A logical coordinate in physical pixels, truncated toward zero.
fn physical(logical: i64, scale_percent: u32) -> (r: i64)
    requires
        -(IMG_WIDTH as int) - 0x8000_0000 <= logical <= 0x1_0000_0000 + 0x8000_0000,
    ensures
        r == to_physical(logical as int, scale_percent as int),
{
    let s: i128 = scale_percent as i128;
    if logical >= 0 {
        assert(0 <= logical * s <= 0x1_8000_0000 * 0x1_0000_0000) by (nonlinear_arith)
            requires
                0 <= logical <= 0x1_8000_0000,
                0 <= s <= 0xffff_ffff,
        ;
        assert(logical * s / 100 <= logical * s) by (nonlinear_arith)
            requires
                0 <= logical * s,
        ;
        ((logical as i128 * s) / 100) as i64
    } else {
        let m: i128 = -(logical as i128);
        assert(0 <= m * s <= 0x1_8000_0000 * 0x1_0000_0000) by (nonlinear_arith)
            requires
                0 <= m <= 0x1_8000_0000,
                0 <= s <= 0xffff_ffff,
        ;
        assert(m * s / 100 <= m * s) by (nonlinear_arith)
            requires
                0 <= m * s,
        ;
        (-((m * s) / 100)) as i64
    }
}

/// The area to capture around `pos` on `display`, and `pos` inside it.
///
/// The area lies within the display whatever the point: it starts at or after
/// the display's origin and ends at or before its far edges.
pub fn compute_img_area(display: DisplayDescriptor, pos: [i32; 2]) -> (r: CaptureRegion)
    requires
        display_ok(display),
    ensures
        region_spec(display, pos, r),
        r.left + r.width <= display.width,
        r.top + r.height <= display.height,
{
    let lw: u32 = IMG_WIDTH * 100 / display.scale_percent;
    let lh: u32 = IMG_HEIGHT * 100 / display.scale_percent;
    let w: u32 = if lw <= display.width { lw } else { display.width };
    let h: u32 = if lh <= display.height { lh } else { display.height };
    let (left, x) = top_left(pos[0], w, display.width);
    let (top, y) = top_left(pos[1], h, display.height);
    CaptureRegion {
        left,
        top,
        width: w,
        height: h,
        mouse_pos: (physical(x, display.scale_percent), physical(y, display.scale_percent)),
    }
}

} // verus!
