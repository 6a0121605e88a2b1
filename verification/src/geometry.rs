use vstd::prelude::*;

verus! {

/// Pixel rectangle. Same layout everywhere: top-left + size.
#[derive(Debug, Clone, Copy, PartialEq, Eq, Structural)]
pub struct PixelRect {
    pub x: i32,
    pub y: i32,
    pub w: i32,
    pub h: i32,
}

/// Direction of indexed zone iteration.
#[derive(Debug, Clone, Copy, PartialEq, Eq, Structural)]
pub enum IterateDir {
    Prev,
    Next,
}

/// The rectangle `r` shrunk by `gap` on every side; an axis that would
/// drop below one pixel is clamped to a single pixel.
pub open spec fn deflated(r: PixelRect, gap: int) -> (int, int, int, int) {
    (
        r.x + gap,
        r.y + gap,
        if r.w - 2 * gap >= 1 { r.w - 2 * gap } else { 1 },
        if r.h - 2 * gap >= 1 { r.h - 2 * gap } else { 1 },
    )
}

/// Shrink all four sides by `gap` pixels. A rect smaller than `2*gap`
/// on either axis clamps to a single pixel so we never emit negative sizes.
pub fn deflate(rect: PixelRect, gap: i32) -> (r: PixelRect)
    requires
        i32::MIN <= 2 * gap <= i32::MAX,
        i32::MIN <= rect.x + gap <= i32::MAX,
        i32::MIN <= rect.y + gap <= i32::MAX,
        i32::MIN <= rect.w - 2 * gap <= i32::MAX,
        i32::MIN <= rect.h - 2 * gap <= i32::MAX,
    ensures
        (r.x as int, r.y as int, r.w as int, r.h as int) == deflated(rect, gap as int),
{
    let w0 = rect.w - 2 * gap;
    let h0 = rect.h - 2 * gap;
    let w = if w0 >= 1 { w0 } else { 1 };
    let h = if h0 >= 1 { h0 } else { 1 };
    PixelRect { x: rect.x + gap, y: rect.y + gap, w, h }
}

/// Deflating never yields an empty or negative size: each axis keeps at
/// least one pixel, whatever the gap.
pub proof fn lemma_deflated_keeps_a_pixel(r: PixelRect, gap: int)
    ensures
        deflated(r, gap).2 >= 1,
        deflated(r, gap).3 >= 1,
{
}

/// Next 1-based zone index when iterating over `n` zones from `cur`
/// (0 meaning "not snapped").
pub open spec fn iterate_spec(cur: int, n: int, dir: IterateDir) -> int {
    match dir {
        IterateDir::Next => if cur == 0 { 1 } else { (cur % n) + 1 },
        IterateDir::Prev => if cur == 0 { n } else { ((cur + n - 2) % n) + 1 },
    }
}

/// Compute the next zone index for indexed iteration.
///
/// `current_index` — 1-based current zone, or 0 if the window isn't snapped.
/// `zone_count`    — total zones on the active layout (must be > 0).
///
/// Returns the new 1-based index. Wraps.
pub fn iterate_index(current_index: u32, zone_count: u32, dir: IterateDir) -> (r: u32)
    requires
        zone_count > 0,
        dir == IterateDir::Prev && current_index != 0 ==> current_index + zone_count <= u32::MAX,
    ensures
        r == iterate_spec(current_index as int, zone_count as int, dir),
        1 <= r <= zone_count,
{
    match dir {
        IterateDir::Next => {
            if current_index == 0 {
                1
            } else {
                (current_index % zone_count) + 1
            }
        },
        IterateDir::Prev => {
            if current_index == 0 {
                zone_count
            } else {
                ((current_index + zone_count - 2) % zone_count) + 1
            }
        },
    }
}

/// Stepping back undoes stepping forward: for a snapped window on zone
/// `c` of `n`, `Prev` after `Next` lands on `c` again.
pub proof fn lemma_prev_undoes_next(c: int, n: int)
    requires
        1 <= c <= n,
    ensures
        iterate_spec(iterate_spec(c, n, IterateDir::Next), n, IterateDir::Prev) == c,
        iterate_spec(iterate_spec(c, n, IterateDir::Prev), n, IterateDir::Next) == c,
{
    if c < n {
        assert(c % n == c) by (nonlinear_arith) requires 1 <= c < n;
        assert((c + 1 + n - 2) % n == c - 1 + 0) by (nonlinear_arith) requires 1 <= c < n;
    } else {
        assert(c % n == 0) by (nonlinear_arith) requires c == n, n >= 1;
        assert((1 + n - 2) % n == n - 1) by (nonlinear_arith) requires n >= 1;
    }
    if c > 1 {
        assert((c + n - 2) % n == c - 2) by (nonlinear_arith) requires 2 <= c <= n;
        assert((c - 1) % n == c - 1) by (nonlinear_arith) requires 2 <= c <= n;
    } else {
        assert((c + n - 2) % n == n - 1) by (nonlinear_arith) requires c == 1, n >= 1;
        assert(n % n == 0) by (nonlinear_arith) requires n >= 1;
    }
}

} // verus!
