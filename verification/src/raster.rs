//! Triangle rasterisation by half-spaces, and the small integer helpers that
//! clamp shapes to the screen.

use vstd::prelude::*;

use crate::framebuffer::{
    all_within_pixels, coord, lemma_rows_contains_kept, lemma_rows_within_pixels, on_screen,
    pixel_addressable, pixel_at, pixel_store, region_addressable, rows, span,
    stores_kept_pixel_in, FrameConfig, FramebufferWrite, PackedColor,
};

verus! {

pub open spec fn imin(a: int, b: int) -> int {
    if a <= b {
        a
    } else {
        b
    }
}

pub open spec fn imax(a: int, b: int) -> int {
    if a >= b {
        a
    } else {
        b
    }
}

pub fn min_i32(a: i32, b: i32) -> (m: i32)
    ensures
        m == imin(a as int, b as int),
{
    if a <= b {
        a
    } else {
        b
    }
}

pub fn max_i32(a: i32, b: i32) -> (m: i32)
    ensures
        m == imax(a as int, b as int),
{
    if a >= b {
        a
    } else {
        b
    }
}

/// A screen dimension reinterpreted as an `i32`: values past `i32::MAX`
/// become negative.
pub fn wrap_i32(v: u32) -> (r: i32)
    ensures
        r == coord(v as int, true),
{
    if v <= 0x7fff_ffff {
        v as i32
    } else {
        (v as i64 - 0x1_0000_0000i64) as i32
    }
}

pub open spec fn fits_i32(v: int) -> bool {
    i32::MIN <= v <= i32::MAX
}

/// Twice the signed area of the triangle `(a, b, p)`; its sign tells on
/// which side of the directed edge `a -> b` the point `p` lies.
pub open spec fn edge_value(ax: int, ay: int, bx: int, by: int, px: int, py: int) -> int {
    (px - ax) * (by - ay) - (py - ay) * (bx - ax)
}

/// Whether every intermediate value of the edge function fits in an `i32`.
pub open spec fn edge_fits(ax: int, ay: int, bx: int, by: int, px: int, py: int) -> bool {
    &&& fits_i32(px - ax)
    &&& fits_i32(by - ay)
    &&& fits_i32((px - ax) * (by - ay))
    &&& fits_i32(py - ay)
    &&& fits_i32(bx - ax)
    &&& fits_i32((py - ay) * (bx - ax))
    &&& fits_i32(edge_value(ax, ay, bx, by, px, py))
}

/// The edge function in 32-bit arithmetic.
pub fn edge(ax: i32, ay: i32, bx: i32, by: i32, px: i32, py: i32) -> (e: i32)
    requires
        edge_fits(ax as int, ay as int, bx as int, by as int, px as int, py as int),
    ensures
        e == edge_value(ax as int, ay as int, bx as int, by as int, px as int, py as int),
{
    (px - ax) * (by - ay) - (py - ay) * (bx - ax)
}

/// The vertices of a triangle.
pub struct Vertices {
    pub x0: int,
    pub y0: int,
    pub x1: int,
    pub y1: int,
    pub x2: int,
    pub y2: int,
}

/// Twice the signed area of the triangle; positive when it is
/// counter-clockwise in screen coordinates read as a right-handed system.
pub open spec fn signed_area(t: Vertices) -> int {
    edge_value(t.x0, t.y0, t.x1, t.y1, t.x2, t.y2)
}

/// The three edge functions of pixel `(x, y)`.
pub open spec fn edge0(t: Vertices, x: int, y: int) -> int {
    edge_value(t.x1, t.y1, t.x2, t.y2, x, y)
}

pub open spec fn edge1(t: Vertices, x: int, y: int) -> int {
    edge_value(t.x2, t.y2, t.x0, t.y0, x, y)
}

pub open spec fn edge2(t: Vertices, x: int, y: int) -> int {
    edge_value(t.x0, t.y0, t.x1, t.y1, x, y)
}

/// A pixel is inside when all three edge functions share the sign of the
/// area (zero counts as inside), whichever way the triangle winds.
pub open spec fn inside(t: Vertices, x: int, y: int) -> bool {
    if signed_area(t) > 0 {
        edge0(t, x, y) >= 0 && edge1(t, x, y) >= 0 && edge2(t, x, y) >= 0
    } else {
        edge0(t, x, y) <= 0 && edge1(t, x, y) <= 0 && edge2(t, x, y) <= 0
    }
}

pub open spec fn in_triangle(t: Vertices) -> spec_fn(int, int) -> bool {
    |x: int, y: int| inside(t, x, y)
}

/// The triangle's bounding box, clamped to the screen.
pub open spec fn box_min_x(t: Vertices) -> int {
    imax(imin(imin(t.x0, t.x1), t.x2), 0)
}

pub open spec fn box_min_y(t: Vertices) -> int {
    imax(imin(imin(t.y0, t.y1), t.y2), 0)
}

pub open spec fn box_max_x(cfg: FrameConfig, t: Vertices) -> int {
    imin(imax(imax(t.x0, t.x1), t.x2), coord(cfg.width as int, true) - 1)
}

pub open spec fn box_max_y(cfg: FrameConfig, t: Vertices) -> int {
    imin(imax(imax(t.y0, t.y1), t.y2), coord(cfg.height as int, true) - 1)
}

/// The stores that fill triangle `t`: nothing for a degenerate triangle,
/// otherwise the pixels of the clamped bounding box that are inside, row by
/// row.
pub open spec fn triangle_writes(cfg: FrameConfig, c: PackedColor, t: Vertices) -> Seq<
    FramebufferWrite,
> {
    if signed_area(t) == 0 {
        Seq::empty()
    } else {
        rows(cfg, c, box_min_y(t), box_max_y(cfg, t), box_min_x(t), box_max_x(cfg, t), in_triangle(t), false)
    }
}

/// Whether the three edge functions of pixel `(x, y)` can be computed in
/// 32-bit arithmetic.
pub open spec fn pixel_edges_fit(t: Vertices, x: int, y: int) -> bool {
    &&& edge_fits(t.x1, t.y1, t.x2, t.y2, x, y)
    &&& edge_fits(t.x2, t.y2, t.x0, t.y0, x, y)
    &&& edge_fits(t.x0, t.y0, t.x1, t.y1, x, y)
}

/// Whether filling triangle `t` computes without overflow: the screen size
/// less one fits in an `i32`, the area fits, and, unless the triangle is
/// degenerate, so do the edge functions of every pixel of the bounding box.
pub open spec fn triangle_computable(cfg: FrameConfig, t: Vertices) -> bool {
    &&& cfg.width != 0x8000_0000
    &&& cfg.height != 0x8000_0000
    &&& edge_fits(t.x0, t.y0, t.x1, t.y1, t.x2, t.y2)
    &&& signed_area(t) != 0 ==> forall|x: int, y: int|
        box_min_x(t) <= x <= box_max_x(cfg, t) && box_min_y(t) <= y <= box_max_y(cfg, t)
            ==> #[trigger] pixel_edges_fit(t, x, y)
}

/// Whether the address of every pixel that filling triangle `t` draws can
/// be computed.
pub open spec fn triangle_addressable(cfg: FrameConfig, t: Vertices) -> bool {
    signed_area(t) != 0 ==> region_addressable(
        cfg,
        box_min_y(t),
        box_max_y(cfg, t),
        box_min_x(t),
        box_max_x(cfg, t),
        in_triangle(t),
        false,
    )
}

pub open spec fn vertices(x0: i32, y0: i32, x1: i32, y1: i32, x2: i32, y2: i32) -> Vertices {
    Vertices {
        x0: x0 as int,
        y0: y0 as int,
        x1: x1 as int,
        y1: y1 as int,
        x2: x2 as int,
        y2: y2 as int,
    }
}

/// Fills a triangle given by three vertices, using half-space
/// rasterisation over its bounding box clamped to the screen.
pub fn fill_triangle(
    cfg: &FrameConfig,
    c: &PackedColor,
    x0: i32,
    y0: i32,
    x1: i32,
    y1: i32,
    x2: i32,
    y2: i32,
) -> (out: Vec<FramebufferWrite>)
    requires
        triangle_addressable(*cfg, vertices(x0, y0, x1, y1, x2, y2)),
        triangle_computable(*cfg, vertices(x0, y0, x1, y1, x2, y2)),
    ensures
        out@ == triangle_writes(*cfg, *c, vertices(x0, y0, x1, y1, x2, y2)),
{
    let ghost t = vertices(x0, y0, x1, y1, x2, y2);
    let w = wrap_i32(cfg.width);
    let h = wrap_i32(cfg.height);

    let min_x = max_i32(min_i32(min_i32(x0, x1), x2), 0);
    let min_y = max_i32(min_i32(min_i32(y0, y1), y2), 0);
    let max_x = min_i32(max_i32(max_i32(x0, x1), x2), w - 1);
    let max_y = min_i32(max_i32(max_i32(y0, y1), y2), h - 1);

    let area = edge(x0, y0, x1, y1, x2, y2);
    let mut out: Vec<FramebufferWrite> = Vec::new();
    if area == 0 {
        return out;
    }
    let ghost keep = in_triangle(t);
    if min_y > max_y {
        assert(out@ =~= triangle_writes(*cfg, *c, t));
        return out;
    }
    let mut y = min_y;
    while y <= max_y
        invariant
            min_y <= y <= max_y + 1,
            min_y <= max_y,
            0 <= min_x,
            0 <= min_y,
            max_x < i32::MAX,
            max_y < i32::MAX,
            min_x == box_min_x(t),
            min_y == box_min_y(t),
            max_x == box_max_x(*cfg, t),
            max_y == box_max_y(*cfg, t),
            area == signed_area(t),
            area != 0,
            t == vertices(x0, y0, x1, y1, x2, y2),
            keep == in_triangle(t),
            triangle_addressable(*cfg, t),
            triangle_computable(*cfg, t),
            out@ == rows(*cfg, *c, min_y as int, y - 1, min_x as int, max_x as int, keep, false),
        decreases max_y - y + 1,
    {
        let ghost before_row = out@;
        let mut x = min_x;
        while x <= max_x
            invariant
                min_x <= x,
                x <= max_x + 1 || x == min_x,
                min_y <= y <= max_y,
                0 <= min_x,
                0 <= min_y,
                max_x < i32::MAX,
                min_x == box_min_x(t),
                min_y == box_min_y(t),
                max_x == box_max_x(*cfg, t),
                max_y == box_max_y(*cfg, t),
                area == signed_area(t),
                area != 0,
                t == vertices(x0, y0, x1, y1, x2, y2),
                keep == in_triangle(t),
                triangle_addressable(*cfg, t),
                triangle_computable(*cfg, t),
                out@ == before_row + span(*cfg, *c, y as int, min_x as int, x - 1, keep, false),
            decreases max_x - x + 1,
        {
            assert(pixel_edges_fit(t, x as int, y as int));
            let w0 = edge(x1, y1, x2, y2, x, y);
            let w1 = edge(x2, y2, x0, y0, x, y);
            let w2 = edge(x0, y0, x1, y1, x, y);
            let inside = if area > 0 {
                w0 >= 0 && w1 >= 0 && w2 >= 0
            } else {
                w0 <= 0 && w1 <= 0 && w2 <= 0
            };
            if inside {
                assert(keep(x as int, y as int));
                assert(on_screen(*cfg, coord(x as int, false), coord(y as int, false))
                    ==> pixel_addressable(*cfg, coord(x as int, false), coord(y as int, false)));
                match pixel_at(cfg, x as u32, y as u32, c) {
                    Some(wr) => {
                        out.push(wr);
                    },
                    None => {},
                }
            }
            assert(out@ =~= before_row + span(*cfg, *c, y as int, min_x as int, x as int, keep, false));
            x = x + 1;
        }
        assert(out@ =~= rows(*cfg, *c, min_y as int, y as int, min_x as int, max_x as int, keep, false));
        y = y + 1;
    }
    out
}

/// The triangle with its last two vertices exchanged, which winds the
/// other way.
pub open spec fn swap_last_two(t: Vertices) -> Vertices {
    Vertices { x0: t.x0, y0: t.y0, x1: t.x2, y1: t.y2, x2: t.x1, y2: t.y1 }
}

/// The triangle with its vertices rotated by one place.
pub open spec fn rotate_vertices(t: Vertices) -> Vertices {
    Vertices { x0: t.x1, y0: t.y1, x1: t.x2, y1: t.y2, x2: t.x0, y2: t.y0 }
}

proof fn lemma_edge_antisymmetric(ax: int, ay: int, bx: int, by: int, px: int, py: int)
    ensures
        edge_value(ax, ay, bx, by, px, py) == -edge_value(bx, by, ax, ay, px, py),
{
    assert((px - ax) * (by - ay) - (py - ay) * (bx - ax) == -((px - bx) * (ay - by) - (py - by) * (
    ax - bx))) by (nonlinear_arith);
}

proof fn lemma_area_winding(t: Vertices)
    ensures
        signed_area(swap_last_two(t)) == -signed_area(t),
        signed_area(rotate_vertices(t)) == signed_area(t),
{
    let (x0, y0, x1, y1, x2, y2) = (t.x0, t.y0, t.x1, t.y1, t.x2, t.y2);
    assert((x1 - x0) * (y2 - y0) - (y1 - y0) * (x2 - x0) == -((x2 - x0) * (y1 - y0) - (y2 - y0) * (
    x1 - x0))) by (nonlinear_arith);
    assert((x0 - x1) * (y2 - y1) - (y0 - y1) * (x2 - x1) == (x2 - x0) * (y1 - y0) - (y2 - y0) * (x1
        - x0)) by (nonlinear_arith);
}

/// A triangle covers the same pixels whichever way it winds and whichever
/// vertex comes first, so filling it produces the same stores for every
/// order of its vertices, and needs the same addresses.
pub proof fn lemma_triangle_vertex_order(cfg: FrameConfig, c: PackedColor, t: Vertices)
    ensures
        triangle_writes(cfg, c, swap_last_two(t)) == triangle_writes(cfg, c, t),
        triangle_writes(cfg, c, rotate_vertices(t)) == triangle_writes(cfg, c, t),
        triangle_addressable(cfg, swap_last_two(t)) == triangle_addressable(cfg, t),
        triangle_addressable(cfg, rotate_vertices(t)) == triangle_addressable(cfg, t),
{
    lemma_triangle_in_triangle_order(t);
}

/// Exchanging or rotating the vertices keeps the area's sign and, for a
/// triangle that is not degenerate, the set of pixels inside.
proof fn lemma_triangle_in_triangle_order(t: Vertices)
    ensures
        signed_area(swap_last_two(t)) == -signed_area(t),
        signed_area(rotate_vertices(t)) == signed_area(t),
        signed_area(t) != 0 ==> in_triangle(swap_last_two(t)) == in_triangle(t),
        signed_area(t) != 0 ==> in_triangle(rotate_vertices(t)) == in_triangle(t),
{
    let s = swap_last_two(t);
    let r = rotate_vertices(t);
    lemma_area_winding(t);
    if signed_area(t) != 0 {
        assert forall|x: int, y: int| #[trigger] inside(s, x, y) == inside(t, x, y) by {
            lemma_edge_antisymmetric(t.x1, t.y1, t.x2, t.y2, x, y);
            lemma_edge_antisymmetric(t.x2, t.y2, t.x0, t.y0, x, y);
            lemma_edge_antisymmetric(t.x0, t.y0, t.x1, t.y1, x, y);
        }
        assert forall|x: int, y: int| #[trigger] inside(r, x, y) == inside(t, x, y) by {}
        assert(in_triangle(s) =~= in_triangle(t));
        assert(in_triangle(r) =~= in_triangle(t));
    }
}

/// Filling a triangle only stores to pixels of the framebuffer.
pub proof fn lemma_triangle_within_pixels(cfg: FrameConfig, c: PackedColor, t: Vertices)
    requires
        triangle_addressable(cfg, t),
    ensures
        all_within_pixels(cfg, triangle_writes(cfg, c, t)),
{
    if signed_area(t) != 0 {
        lemma_rows_within_pixels(
            cfg,
            c,
            box_min_y(t),
            box_max_y(cfg, t),
            box_min_x(t),
            box_max_x(cfg, t),
            in_triangle(t),
            false,
        );
    }
}

/// Whether `w` is the store, in colour `c`, of a pixel of the screen that
/// lies inside triangle `t`.
pub open spec fn stores_triangle_pixel(
    cfg: FrameConfig,
    c: PackedColor,
    t: Vertices,
    w: FramebufferWrite,
) -> bool {
    exists|x: int, y: int|
        #![trigger pixel_store(cfg, x, y, c)]
        inside(t, x, y) && on_screen(cfg, x, y) && w == pixel_store(cfg, x, y, c)
}

/// The three edge functions of a pixel add up to the area, and weighting
/// the vertices by them gives the pixel scaled by the area.
proof fn lemma_barycentric(t: Vertices, x: int, y: int)
    ensures
        edge0(t, x, y) + edge1(t, x, y) + edge2(t, x, y) == signed_area(t),
        edge0(t, x, y) * t.x0 + edge1(t, x, y) * t.x1 + edge2(t, x, y) * t.x2 == signed_area(t)
            * x,
        edge0(t, x, y) * t.y0 + edge1(t, x, y) * t.y1 + edge2(t, x, y) * t.y2 == signed_area(t)
            * y,
{
    let (x0, y0, x1, y1, x2, y2) = (t.x0, t.y0, t.x1, t.y1, t.x2, t.y2);
    // The same quantities measured from vertex 0.
    let (px, py, ux, uy, vx, vy) = (x - x0, y - y0, x1 - x0, y1 - y0, x2 - x0, y2 - y0);
    let e0 = edge0(t, x, y);
    let e1 = edge1(t, x, y);
    let e2 = edge2(t, x, y);
    let a = signed_area(t);
    assert(e0 == (px - ux) * (vy - uy) - (py - uy) * (vx - ux));
    assert(e1 == (px - vx) * (-vy) - (py - vy) * (-vx));
    assert(e2 == px * uy - py * ux);
    assert(a == vx * uy - vy * ux);
    assert((px - ux) * (vy - uy) - (py - uy) * (vx - ux) == px * vy - px * uy - ux * vy - py * vx
        + py * ux + uy * vx) by (nonlinear_arith);
    assert((px - vx) * (-vy) - (py - vy) * (-vx) == py * vx - px * vy) by (nonlinear_arith);
    assert(e0 + e1 + e2 == a);
    assert(e1 * ux + e2 * vx == a * px) by (nonlinear_arith)
        requires
            e1 == py * vx - px * vy,
            e2 == px * uy - py * ux,
            a == vx * uy - vy * ux,
    ;
    assert(e1 * uy + e2 * vy == a * py) by (nonlinear_arith)
        requires
            e1 == py * vx - px * vy,
            e2 == px * uy - py * ux,
            a == vx * uy - vy * ux,
    ;
    assert(e0 * x0 + e1 * x1 + e2 * x2 == a * x) by (nonlinear_arith)
        requires
            e0 + e1 + e2 == a,
            e1 * ux + e2 * vx == a * px,
            ux == x1 - x0,
            vx == x2 - x0,
            px == x - x0,
    ;
    assert(e0 * y0 + e1 * y1 + e2 * y2 == a * y) by (nonlinear_arith)
        requires
            e0 + e1 + e2 == a,
            e1 * uy + e2 * vy == a * py,
            uy == y1 - y0,
            vy == y2 - y0,
            py == y - y0,
    ;
}

/// A weighted average with non-negative weights lies between the smallest
/// and the largest of the averaged values.
proof fn lemma_weighted_between(e0: int, e1: int, e2: int, a: int, p: int, p0: int, p1: int, p2: int)
    requires
        a > 0,
        e0 >= 0,
        e1 >= 0,
        e2 >= 0,
        e0 + e1 + e2 == a,
        e0 * p0 + e1 * p1 + e2 * p2 == a * p,
    ensures
        imin(imin(p0, p1), p2) <= p <= imax(imax(p0, p1), p2),
{
    let lo = imin(imin(p0, p1), p2);
    let hi = imax(imax(p0, p1), p2);
    assert(a * lo <= a * p <= a * hi) by (nonlinear_arith)
        requires
            e0 >= 0,
            e1 >= 0,
            e2 >= 0,
            e0 + e1 + e2 == a,
            e0 * p0 + e1 * p1 + e2 * p2 == a * p,
            lo <= p0 <= hi,
            lo <= p1 <= hi,
            lo <= p2 <= hi,
    ;
    assert(lo <= p <= hi) by (nonlinear_arith)
        requires
            a > 0,
            a * lo <= a * p <= a * hi,
    ;
}

/// A pixel inside a triangle that is not degenerate lies within the
/// triangle's bounding box.
proof fn lemma_inside_in_box(t: Vertices, x: int, y: int)
    requires
        signed_area(t) != 0,
        inside(t, x, y),
    ensures
        imin(imin(t.x0, t.x1), t.x2) <= x <= imax(imax(t.x0, t.x1), t.x2),
        imin(imin(t.y0, t.y1), t.y2) <= y <= imax(imax(t.y0, t.y1), t.y2),
{
    lemma_barycentric(t, x, y);
    let (e0, e1, e2, a) = (edge0(t, x, y), edge1(t, x, y), edge2(t, x, y), signed_area(t));
    if a > 0 {
        lemma_weighted_between(e0, e1, e2, a, x, t.x0, t.x1, t.x2);
        lemma_weighted_between(e0, e1, e2, a, y, t.y0, t.y1, t.y2);
    } else {
        assert((-e0) * t.x0 + (-e1) * t.x1 + (-e2) * t.x2 == (-a) * x) by (nonlinear_arith)
            requires
                e0 * t.x0 + e1 * t.x1 + e2 * t.x2 == a * x,
        ;
        assert((-e0) * t.y0 + (-e1) * t.y1 + (-e2) * t.y2 == (-a) * y) by (nonlinear_arith)
            requires
                e0 * t.y0 + e1 * t.y1 + e2 * t.y2 == a * y,
        ;
        lemma_weighted_between(-e0, -e1, -e2, -a, x, t.x0, t.x1, t.x2);
        lemma_weighted_between(-e0, -e1, -e2, -a, y, t.y0, t.y1, t.y2);
    }
}

/// Filling a triangle stores exactly the pixels of the screen that lie
/// inside it, each once in colour `c`, and nothing for a degenerate
/// triangle: clamping the scan to the triangle's bounding box and to the
/// screen loses no pixel.
pub proof fn lemma_triangle_writes_contains(
    cfg: FrameConfig,
    c: PackedColor,
    t: Vertices,
    w: FramebufferWrite,
)
    requires
        cfg.width <= i32::MAX,
        cfg.height <= i32::MAX,
    ensures
        triangle_writes(cfg, c, t).contains(w) <==> (signed_area(t) != 0 && stores_triangle_pixel(
            cfg,
            c,
            t,
            w,
        )),
{
    if signed_area(t) != 0 {
        let (xa, xb, ya, yb) = (box_min_x(t), box_max_x(cfg, t), box_min_y(t), box_max_y(cfg, t));
        lemma_rows_contains_kept(cfg, c, ya, yb, xa, xb, in_triangle(t), w);
        if stores_kept_pixel_in(cfg, c, xa, xb, ya, yb, in_triangle(t), w) {
            let (x, y) = choose|x: int, y: int|
                #![trigger pixel_store(cfg, x, y, c)]
                xa <= x <= xb && ya <= y <= yb && in_triangle(t)(x, y) && on_screen(cfg, x, y) && w
                    == pixel_store(cfg, x, y, c);
            assert(stores_triangle_pixel(cfg, c, t, w));
        }
        if stores_triangle_pixel(cfg, c, t, w) {
            let (x, y) = choose|x: int, y: int|
                #![trigger pixel_store(cfg, x, y, c)]
                inside(t, x, y) && on_screen(cfg, x, y) && w == pixel_store(cfg, x, y, c);
            lemma_inside_in_box(t, x, y);
            assert(in_triangle(t)(x, y));
            assert(stores_kept_pixel_in(cfg, c, xa, xb, ya, yb, in_triangle(t), w));
        }
    }
}

/// The coordinate range in which every edge function is sure to fit in an
/// `i32`.
pub open spec fn in_safe_range(v: int) -> bool {
    -16383 <= v <= 16383
}

proof fn lemma_edge_fits_in_safe_range(ax: int, ay: int, bx: int, by: int, px: int, py: int)
    requires
        in_safe_range(ax),
        in_safe_range(ay),
        in_safe_range(bx),
        in_safe_range(by),
        in_safe_range(px),
        in_safe_range(py),
    ensures
        edge_fits(ax, ay, bx, by, px, py),
{
    let (u, v, w, z) = (px - ax, by - ay, py - ay, bx - ax);
    assert(-32766 * 32766 <= u * v <= 32766 * 32766) by (nonlinear_arith)
        requires
            -32766 <= u <= 32766,
            -32766 <= v <= 32766,
    ;
    assert(-32766 * 32766 <= w * z <= 32766 * 32766) by (nonlinear_arith)
        requires
            -32766 <= w <= 32766,
            -32766 <= z <= 32766,
    ;
}

/// Whether every vertex coordinate is in the safe range.
pub open spec fn vertices_in_safe_range(t: Vertices) -> bool {
    &&& in_safe_range(t.x0)
    &&& in_safe_range(t.y0)
    &&& in_safe_range(t.x1)
    &&& in_safe_range(t.y1)
    &&& in_safe_range(t.x2)
    &&& in_safe_range(t.y2)
}

/// A triangle with its vertices in the safe range can be filled without
/// overflow on a screen whose size less one fits in an `i32`.
pub proof fn lemma_safe_range_computable(cfg: FrameConfig, t: Vertices)
    requires
        vertices_in_safe_range(t),
        cfg.width != 0x8000_0000,
        cfg.height != 0x8000_0000,
    ensures
        triangle_computable(cfg, t),
{
    lemma_edge_fits_in_safe_range(t.x0, t.y0, t.x1, t.y1, t.x2, t.y2);
    assert forall|x: int, y: int|
        box_min_x(t) <= x <= box_max_x(cfg, t) && box_min_y(t) <= y <= box_max_y(cfg, t)
        implies #[trigger] pixel_edges_fit(t, x, y) by {
        lemma_edge_fits_in_safe_range(t.x1, t.y1, t.x2, t.y2, x, y);
        lemma_edge_fits_in_safe_range(t.x2, t.y2, t.x0, t.y0, x, y);
        lemma_edge_fits_in_safe_range(t.x0, t.y0, t.x1, t.y1, x, y);
    }
}

/// With its vertices in the safe range, a triangle can be filled without
/// overflow from every order of its vertices.
pub proof fn lemma_triangle_vertex_order_calls(cfg: FrameConfig, t: Vertices)
    requires
        vertices_in_safe_range(t),
        cfg.width != 0x8000_0000,
        cfg.height != 0x8000_0000,
    ensures
        triangle_computable(cfg, t),
        triangle_computable(cfg, swap_last_two(t)),
        triangle_computable(cfg, rotate_vertices(t)),
{
    lemma_safe_range_computable(cfg, t);
    lemma_safe_range_computable(cfg, swap_last_two(t));
    lemma_safe_range_computable(cfg, rotate_vertices(t));
}

/// Whether the edge function can be computed in 32-bit arithmetic, decided
/// in 128-bit arithmetic.
pub fn edge_fits_exec(ax: i32, ay: i32, bx: i32, by: i32, px: i32, py: i32) -> (b: bool)
    ensures
        b == edge_fits(ax as int, ay as int, bx as int, by as int, px as int, py as int),
{
    let u = px as i128 - ax as i128;
    let v = by as i128 - ay as i128;
    let w = py as i128 - ay as i128;
    let z = bx as i128 - ax as i128;
    assert(-0x1_0000_0000 * 0x1_0000_0000 <= u * v <= 0x1_0000_0000 * 0x1_0000_0000) by (
    nonlinear_arith)
        requires
            -0x1_0000_0000 <= u <= 0x1_0000_0000,
            -0x1_0000_0000 <= v <= 0x1_0000_0000,
    ;
    assert(-0x1_0000_0000 * 0x1_0000_0000 <= w * z <= 0x1_0000_0000 * 0x1_0000_0000) by (
    nonlinear_arith)
        requires
            -0x1_0000_0000 <= w <= 0x1_0000_0000,
            -0x1_0000_0000 <= z <= 0x1_0000_0000,
    ;
    let uv = u * v;
    let wz = w * z;
    let e = uv - wz;
    let lo: i128 = -0x8000_0000;
    let hi: i128 = 0x7fff_ffff;
    lo <= u && u <= hi && lo <= v && v <= hi && lo <= uv && uv <= hi && lo <= w && w <= hi && lo
        <= z && z <= hi && lo <= wz && wz <= hi && lo <= e && e <= hi
}

/// Whether the three edge functions of pixel `(x, y)` can be computed in
/// 32-bit arithmetic.
pub fn pixel_edges_fit_exec(
    x0: i32,
    y0: i32,
    x1: i32,
    y1: i32,
    x2: i32,
    y2: i32,
    x: i32,
    y: i32,
) -> (b: bool)
    ensures
        b == pixel_edges_fit(vertices(x0, y0, x1, y1, x2, y2), x as int, y as int),
{
    edge_fits_exec(x1, y1, x2, y2, x, y) && edge_fits_exec(x2, y2, x0, y0, x, y) && edge_fits_exec(
        x0,
        y0,
        x1,
        y1,
        x,
        y,
    )
}

/// An affine function that stays within `lo..=hi` at the four corners of a
/// box stays within it on the whole box.
proof fn lemma_affine_in_box(
    a: int,
    b: int,
    c: int,
    xa: int,
    xb: int,
    ya: int,
    yb: int,
    x: int,
    y: int,
    lo: int,
    hi: int,
)
    requires
        xa <= x <= xb,
        ya <= y <= yb,
        lo <= a * xa + b * ya + c <= hi,
        lo <= a * xb + b * ya + c <= hi,
        lo <= a * xa + b * yb + c <= hi,
        lo <= a * xb + b * yb + c <= hi,
    ensures
        lo <= a * x + b * y + c <= hi,
{
    assert((a >= 0 ==> a * xa <= a * x <= a * xb) && (a < 0 ==> a * xb <= a * x <= a * xa)) by (
    nonlinear_arith)
        requires
            xa <= x <= xb,
    ;
    assert((b >= 0 ==> b * ya <= b * y <= b * yb) && (b < 0 ==> b * yb <= b * y <= b * ya)) by (
    nonlinear_arith)
        requires
            ya <= y <= yb,
    ;
}

proof fn lemma_shifted_product(p: int, q: int, d: int)
    ensures
        (p - q) * d == d * p + (-q * d),
{
    assert((p - q) * d == d * p + (-q * d)) by (nonlinear_arith);
}

/// The edge functions are affine in the pixel, so if every intermediate
/// value fits in an `i32` at the four corners of a box, it fits on the
/// whole box.
proof fn lemma_edge_fits_in_box(
    ax: int,
    ay: int,
    bx: int,
    by: int,
    xa: int,
    xb: int,
    ya: int,
    yb: int,
    x: int,
    y: int,
)
    requires
        xa <= x <= xb,
        ya <= y <= yb,
        edge_fits(ax, ay, bx, by, xa, ya),
        edge_fits(ax, ay, bx, by, xb, ya),
        edge_fits(ax, ay, bx, by, xa, yb),
        edge_fits(ax, ay, bx, by, xb, yb),
    ensures
        edge_fits(ax, ay, bx, by, x, y),
{
    let lo = i32::MIN as int;
    let hi = i32::MAX as int;
    let d1 = by - ay;
    let d2 = bx - ax;
    lemma_affine_in_box(1, 0, -ax, xa, xb, ya, yb, x, y, lo, hi);
    lemma_affine_in_box(0, 1, -ay, xa, xb, ya, yb, x, y, lo, hi);
    lemma_shifted_product(x, ax, d1);
    lemma_shifted_product(xa, ax, d1);
    lemma_shifted_product(xb, ax, d1);
    lemma_shifted_product(y, ay, d2);
    lemma_shifted_product(ya, ay, d2);
    lemma_shifted_product(yb, ay, d2);
    lemma_affine_in_box(d1, 0, -ax * d1, xa, xb, ya, yb, x, y, lo, hi);
    lemma_affine_in_box(0, d2, -ay * d2, xa, xb, ya, yb, x, y, lo, hi);
    let nd2 = -d2;
    let c = -ax * d1 + ay * d2;
    lemma_edge_affine(ax, ay, bx, by, x, y);
    lemma_edge_affine(ax, ay, bx, by, xa, ya);
    lemma_edge_affine(ax, ay, bx, by, xb, ya);
    lemma_edge_affine(ax, ay, bx, by, xa, yb);
    lemma_edge_affine(ax, ay, bx, by, xb, yb);
    lemma_affine_in_box(d1, nd2, c, xa, xb, ya, yb, x, y, lo, hi);
}

/// The edge function as an affine function of the pixel.
proof fn lemma_edge_affine(ax: int, ay: int, bx: int, by: int, p: int, q: int)
    ensures
        edge_value(ax, ay, bx, by, p, q) == (by - ay) * p + (-(bx - ax)) * q + (-ax * (by - ay)
            + ay * (bx - ax)),
{
    assert((p - ax) * (by - ay) - (q - ay) * (bx - ax) == (by - ay) * p + (-(bx - ax)) * q + (-ax
        * (by - ay) + ay * (bx - ax))) by (nonlinear_arith);
}

/// Whether filling the triangle computes without overflow, decided exactly:
/// the edge functions are affine, so checking the corners of the bounding
/// box covers every pixel in it.
pub fn triangle_can_fill(
    cfg: &FrameConfig,
    x0: i32,
    y0: i32,
    x1: i32,
    y1: i32,
    x2: i32,
    y2: i32,
) -> (b: bool)
    ensures
        b == triangle_computable(*cfg, vertices(x0, y0, x1, y1, x2, y2)),
{
    let ghost t = vertices(x0, y0, x1, y1, x2, y2);
    if cfg.width == 0x8000_0000 || cfg.height == 0x8000_0000 {
        return false;
    }
    if !edge_fits_exec(x0, y0, x1, y1, x2, y2) {
        return false;
    }
    if edge(x0, y0, x1, y1, x2, y2) == 0 {
        return true;
    }
    let w = wrap_i32(cfg.width);
    let h = wrap_i32(cfg.height);
    let min_x = max_i32(min_i32(min_i32(x0, x1), x2), 0);
    let min_y = max_i32(min_i32(min_i32(y0, y1), y2), 0);
    let max_x = min_i32(max_i32(max_i32(x0, x1), x2), w - 1);
    let max_y = min_i32(max_i32(max_i32(y0, y1), y2), h - 1);
    if min_x > max_x || min_y > max_y {
        return true;
    }
    let ok = pixel_edges_fit_exec(x0, y0, x1, y1, x2, y2, min_x, min_y) && pixel_edges_fit_exec(
        x0,
        y0,
        x1,
        y1,
        x2,
        y2,
        max_x,
        min_y,
    ) && pixel_edges_fit_exec(x0, y0, x1, y1, x2, y2, min_x, max_y) && pixel_edges_fit_exec(
        x0,
        y0,
        x1,
        y1,
        x2,
        y2,
        max_x,
        max_y,
    );
    proof {
        if ok {
            assert forall|x: int, y: int|
                box_min_x(t) <= x <= box_max_x(*cfg, t) && box_min_y(t) <= y <= box_max_y(*cfg, t)
                implies #[trigger] pixel_edges_fit(t, x, y) by {
                let (xa, xb, ya, yb) = (min_x as int, max_x as int, min_y as int, max_y as int);
                lemma_edge_fits_in_box(t.x1, t.y1, t.x2, t.y2, xa, xb, ya, yb, x, y);
                lemma_edge_fits_in_box(t.x2, t.y2, t.x0, t.y0, xa, xb, ya, yb, x, y);
                lemma_edge_fits_in_box(t.x0, t.y0, t.x1, t.y1, xa, xb, ya, yb, x, y);
            }
        } else {
            let (xa, xb, ya, yb) = (min_x as int, max_x as int, min_y as int, max_y as int);
            assert(!pixel_edges_fit(t, xa, ya) || !pixel_edges_fit(t, xb, ya) || !pixel_edges_fit(
                t,
                xa,
                yb,
            ) || !pixel_edges_fit(t, xb, yb));
        }
    }
    ok
}

} // verus!
