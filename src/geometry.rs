//! Integer world geometry: points, sizes, the axis-aligned box of a frame,
//! hit testing, clamping onto the box and the drag/stretch rules.

use vstd::prelude::*;

verus! {

/// The smallest width or height that a frame may have.
pub const MIN_SIZE: i64 = 10;

/// A point in world space, in integer world units.
#[derive(Clone, Copy, Debug, PartialEq, Eq, Structural)]
pub struct WorldPoint {
    pub x: i64,
    pub y: i64,
}

/// The extent of a frame in world units.
#[derive(Clone, Copy, Debug, PartialEq, Eq, Structural)]
pub struct WorldSize {
    pub width: i64,
    pub height: i64,
}

/// How one axis of a frame follows a drag.
#[derive(Clone, Copy, Debug, PartialEq, Eq, Structural)]
pub enum DragMode {
    /// The low edge follows the pointer, the high edge stays.
    StretchLow,
    /// The high edge follows the pointer, the low edge stays.
    StretchHigh,
    /// The whole frame follows the pointer.
    Drag,
}

/// `q` lies strictly within an extent of `extent` centred on zero.
pub open spec fn inside_axis(q: int, extent: int) -> bool {
    -extent < 2 * q && 2 * q < extent
}

/// The open box of size `size` centred on `pos` contains `p`.
pub open spec fn box_contains(pos: WorldPoint, size: WorldSize, p: WorldPoint) -> bool {
    inside_axis(p.x - pos.x, size.width as int) && inside_axis(p.y - pos.y, size.height as int)
}

pub open spec fn clamp(v: int, lo: int, hi: int) -> int {
    if v < lo {
        lo
    } else if v > hi {
        hi
    } else {
        v
    }
}

/// The half extent of a size, as the integer box reaches it.
pub open spec fn half(extent: int) -> int {
    extent / 2
}

/// `p` lies in the closed integer box `pos ± size / 2`.
pub open spec fn in_closed_box(pos: WorldPoint, size: WorldSize, p: WorldPoint) -> bool {
    &&& -half(size.width as int) <= p.x - pos.x <= half(size.width as int)
    &&& -half(size.height as int) <= p.y - pos.y <= half(size.height as int)
}

/// `p` lies on the edge of the closed integer box `pos ± size / 2`.
pub open spec fn on_box_edge(pos: WorldPoint, size: WorldSize, p: WorldPoint) -> bool {
    &&& in_closed_box(pos, size, p)
    &&& {
        ||| p.x - pos.x == half(size.width as int)
        ||| p.x - pos.x == -half(size.width as int)
        ||| p.y - pos.y == half(size.height as int)
        ||| p.y - pos.y == -half(size.height as int)
    }
}

/// The point of the closed box nearest to `p` along each axis.
pub open spec fn spec_box_cast(pos: WorldPoint, size: WorldSize, p: WorldPoint) -> (int, int) {
    (
        pos.x + clamp(p.x - pos.x, -half(size.width as int), half(size.width as int)),
        pos.y + clamp(p.y - pos.y, -half(size.height as int), half(size.height as int)),
    )
}

/// Halving that rounds toward zero, as integer division of `i64` does.
pub open spec fn half_toward_zero(d: int) -> int {
    if d >= 0 {
        d / 2
    } else {
        -((-d) / 2)
    }
}

pub open spec fn max_int(a: int, b: int) -> int {
    if a >= b {
        a
    } else {
        b
    }
}

/// The part of a drag by `delta` that one axis takes up: all of it for a
/// move; for a stretch, `delta` rounded toward zero to an even number of
/// units, so that the centre moves by a whole half of it.
pub open spec fn consumed(mode: DragMode, delta: int) -> int {
    match mode {
        DragMode::Drag => delta,
        _ => 2 * half_toward_zero(delta),
    }
}

/// Position and size of one axis after a drag by `delta` in `mode`. A
/// stretch moves the centre by half the consumed drag and changes the size
/// by all of it, so the opposite edge stays where it is until the size
/// reaches [`MIN_SIZE`].
pub open spec fn spec_drag_axis(mode: DragMode, pos: int, size: int, delta: int) -> (int, int) {
    match mode {
        DragMode::StretchLow => (pos + half_toward_zero(delta), max_int(size - consumed(mode, delta), MIN_SIZE as int)),
        DragMode::StretchHigh => (pos + half_toward_zero(delta), max_int(size + consumed(mode, delta), MIN_SIZE as int)),
        DragMode::Drag => (pos + delta, size),
    }
}

/// The arithmetic of a drag on one axis stays within `i64`.
pub open spec fn drag_fits(pos: int, size: int, delta: int) -> bool {
    &&& i64::MIN <= pos + delta <= i64::MAX
    &&& i64::MIN <= size - delta <= i64::MAX
    &&& i64::MIN <= size + delta <= i64::MAX
}

/// Whether `p` lies strictly inside the box of size `size` centred on `pos`.
pub fn box_hit(pos: &WorldPoint, size: &WorldSize, p: &WorldPoint) -> (r: bool)
    ensures
        r == box_contains(*pos, *size, *p),
{
    let qx: i128 = p.x as i128 - pos.x as i128;
    let qy: i128 = p.y as i128 - pos.y as i128;
    let w: i128 = size.width as i128;
    let h: i128 = size.height as i128;
    -w < 2 * qx && 2 * qx < w && -h < 2 * qy && 2 * qy < h
}

fn clamp_i128(v: i128, lo: i128, hi: i128) -> (r: i128)
    requires
        lo <= hi,
    ensures
        r == clamp(v as int, lo as int, hi as int),
{
    if v < lo {
        lo
    } else if v > hi {
        hi
    } else {
        v
    }
}

/// Clamps `p` onto the closed box of size `size` centred on `pos`, one axis at
/// a time; used to anchor a link's arrow on the edge of a frame.
pub fn box_cast(pos: &WorldPoint, size: &WorldSize, p: &WorldPoint) -> (r: WorldPoint)
    requires
        size.width >= 0,
        size.height >= 0,
    ensures
        (r.x as int, r.y as int) == spec_box_cast(*pos, *size, *p),
{
    let hx: i128 = (size.width / 2) as i128;
    let hy: i128 = (size.height / 2) as i128;
    let cx = clamp_i128(p.x as i128 - pos.x as i128, -hx, hx);
    let cy = clamp_i128(p.y as i128 - pos.y as i128, -hy, hy);
    let x = pos.x as i128 + cx;
    let y = pos.y as i128 + cy;
    proof {
        // the clamped coordinate lies between `pos` and `p`, or inside the box
        assert(i64::MIN <= x <= i64::MAX);
        assert(i64::MIN <= y <= i64::MAX);
    }
    WorldPoint { x: x as i64, y: y as i64 }
}

fn half_i64(d: i64) -> (r: i64)
    ensures
        r == half_toward_zero(d as int),
{
    d / 2
}

/// Moves or stretches one axis of a frame by `delta`; stretching keeps the
/// opposite edge in place and never shrinks the size below [`MIN_SIZE`].
/// Also returns the part of `delta` taken up.
pub fn drag_axis(mode: DragMode, pos: i64, size: i64, delta: i64) -> (r: (i64, i64, i64))
    requires
        drag_fits(pos as int, size as int, delta as int),
    ensures
        (r.0 as int, r.1 as int) == spec_drag_axis(mode, pos as int, size as int, delta as int),
        r.2 as int == consumed(mode, delta as int),
{
    let h = half_i64(delta);
    match mode {
        DragMode::StretchLow => {
            let s = size - 2 * h;
            (pos + h, if s >= MIN_SIZE { s } else { MIN_SIZE }, 2 * h)
        },
        DragMode::StretchHigh => {
            let s = size + 2 * h;
            (pos + h, if s >= MIN_SIZE { s } else { MIN_SIZE }, 2 * h)
        },
        DragMode::Drag => (pos + delta, size, delta),
    }
}

/// Picks the drag mode of one axis from where, relative to the centre, the
/// touch landed: beyond `range` on either side stretches that edge.
pub fn choose_drag_mode(q: i64, range: i64) -> (r: DragMode)
    ensures
        q < -range ==> r == DragMode::StretchLow,
        -range <= q && q > range ==> r == DragMode::StretchHigh,
        -range <= q <= range ==> r == DragMode::Drag,
{
    if (q as i128) < -(range as i128) {
        DragMode::StretchLow
    } else if q > range {
        DragMode::StretchHigh
    } else {
        DragMode::Drag
    }
}

/// `(x, y)` lies on the edge of the closed integer box `pos ± size / 2`.
pub open spec fn on_box_edge_at(pos: WorldPoint, size: WorldSize, x: int, y: int) -> bool {
    &&& -half(size.width as int) <= x - pos.x <= half(size.width as int)
    &&& -half(size.height as int) <= y - pos.y <= half(size.height as int)
    &&& {
        ||| x - pos.x == half(size.width as int)
        ||| x - pos.x == -half(size.width as int)
        ||| y - pos.y == half(size.height as int)
        ||| y - pos.y == -half(size.height as int)
    }
}

/// A frame's box contains its centre, and no point at or beyond half its
/// width or height from the centre: the box is open.
pub proof fn lemma_hit_center_not_beyond(pos: WorldPoint, size: WorldSize, p: WorldPoint)
    requires
        size.width >= MIN_SIZE,
        size.height >= MIN_SIZE,
    ensures
        box_contains(pos, size, pos),
        2 * (p.x - pos.x) >= size.width || 2 * (pos.x - p.x) >= size.width || 2 * (p.y - pos.y) >= size.height
            || 2 * (pos.y - p.y) >= size.height ==> !box_contains(pos, size, p),
{
}

/// Clamping onto a box leaves a point on its edge where it is, puts every
/// point outside the box onto its edge, and clamping twice is clamping once.
pub proof fn lemma_box_cast_edge(pos: WorldPoint, size: WorldSize, p: WorldPoint)
    requires
        size.width >= 0,
        size.height >= 0,
    ensures
        on_box_edge(pos, size, p) ==> spec_box_cast(pos, size, p) == (p.x as int, p.y as int),
        !in_closed_box(pos, size, p) ==> on_box_edge_at(pos, size, spec_box_cast(pos, size, p).0, spec_box_cast(pos, size, p).1),
        ({
            let (x, y) = spec_box_cast(pos, size, p);
            let hx = half(size.width as int);
            let hy = half(size.height as int);
            &&& pos.x + clamp(x - pos.x, -hx, hx) == x
            &&& pos.y + clamp(y - pos.y, -hy, hy) == y
        }),
{
}

/// However far a drag goes, no axis ends up smaller than [`MIN_SIZE`]; a
/// stretch moves the centre by half the consumed drag, keeps the opposite
/// edge exactly where it was while the size stays above the minimum, and
/// consumes all but at most one unit of the drag.
pub proof fn lemma_drag_keeps_min_size(mode: DragMode, pos: int, size: int, delta: int)
    requires
        size >= MIN_SIZE,
    ensures
        spec_drag_axis(mode, pos, size, delta).1 >= MIN_SIZE,
        mode != DragMode::Drag ==> spec_drag_axis(mode, pos, size, delta).0 == pos + half_toward_zero(delta),
        mode != DragMode::Drag ==> -1 <= delta - consumed(mode, delta) <= 1,
        mode == DragMode::StretchLow && size - consumed(mode, delta) >= MIN_SIZE ==> 2 * spec_drag_axis(
            mode,
            pos,
            size,
            delta,
        ).0 + spec_drag_axis(mode, pos, size, delta).1 == 2 * pos + size,
        mode == DragMode::StretchHigh && size + consumed(mode, delta) >= MIN_SIZE ==> 2 * spec_drag_axis(
            mode,
            pos,
            size,
            delta,
        ).0 - spec_drag_axis(mode, pos, size, delta).1 == 2 * pos - size,
        mode == DragMode::StretchLow ==> spec_drag_axis(mode, pos, size, delta).1 >= size - consumed(mode, delta),
        mode == DragMode::StretchHigh ==> spec_drag_axis(mode, pos, size, delta).1 >= size + consumed(mode, delta),
        mode == DragMode::Drag ==> spec_drag_axis(mode, pos, size, delta) == (pos + delta, size),
{
}

} // verus!
