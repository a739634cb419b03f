//! Polygon geometry over integer coordinates: point-in-polygon containment
//! (even-odd rule, boundary counts as outside) and signed-area centroids.
//!
//! Coordinates are stored in decimicro degrees (units of 1e-7 degree), the
//! integer representation OSM itself uses for node positions, so every
//! geometric test is exact.

use vstd::prelude::*;
use vstd::arithmetic::div_mod::{
    lemma_fundamental_div_mod, lemma_fundamental_div_mod_converse,
};

verus! {

/// Largest coordinate magnitude: 180 degrees in decimicro degrees.
pub const COORD_LIMIT: i64 = 1_800_000_000;

/// Most vertices a polygon ring may carry; keeps centroid sums in range.
pub const MAX_VERTICES: usize = 1_000_000;

/// A latitude/longitude pair in decimicro degrees.
#[derive(Clone, Copy, PartialEq, Eq, Structural, Debug)]
pub struct Coordinate {
    pub lat: i64,
    pub lon: i64,
}

impl Coordinate {
    /// The coordinate lies within the valid WGS84 decimicro-degree range.
    pub open spec fn in_range(&self) -> bool {
        &&& -COORD_LIMIT <= self.lat <= COORD_LIMIT
        &&& -COORD_LIMIT <= self.lon <= COORD_LIMIT
    }
}

/// An implicitly closed ring of coordinates: each vertex connects to the
/// next one, and the last connects back to the first.
#[derive(Debug)]
pub struct Polygon {
    pub points: Vec<Coordinate>,
}

/// A usable vertex ring: at least a triangle, bounded size, in-range vertices.
pub open spec fn ring_wf(s: Seq<Coordinate>) -> bool {
    &&& 3 <= s.len() <= MAX_VERTICES
    &&& forall|i: int| 0 <= i < s.len() ==> (#[trigger] s[i]).in_range()
}

impl Polygon {
    /// A usable ring: at least a triangle, bounded size, in-range vertices.
    pub open spec fn wf(&self) -> bool {
        ring_wf(self.points@)
    }
}

/// Longitude as the x axis of the plane.
pub open spec fn xc(c: Coordinate) -> int {
    c.lon as int
}

/// Latitude as the y axis of the plane.
pub open spec fn yc(c: Coordinate) -> int {
    c.lat as int
}

/// Cross product of (b - a) with (q - a); zero exactly when q lies on the
/// line through a and b.
pub open spec fn cross3(a: Coordinate, b: Coordinate, q: Coordinate) -> int {
    (xc(b) - xc(a)) * (yc(q) - yc(a)) - (yc(b) - yc(a)) * (xc(q) - xc(a))
}

/// v lies between lo and hi, whichever order they come in.
pub open spec fn between(lo: int, v: int, hi: int) -> bool {
    (lo <= v <= hi) || (hi <= v <= lo)
}

/// q lies on the closed segment from a to b.
pub open spec fn on_segment(a: Coordinate, b: Coordinate, q: Coordinate) -> bool {
    &&& cross3(a, b, q) == 0
    &&& between(xc(a), xc(q), xc(b))
    &&& between(yc(a), yc(q), yc(b))
}

/// The segment from a to b crosses the horizontal ray running from q towards
/// increasing x. The half-open vertical test charges a vertex on the ray to
/// exactly one of its two incident edges.
pub open spec fn edge_crosses(a: Coordinate, b: Coordinate, q: Coordinate) -> bool {
    &&& (yc(a) > yc(q)) != (yc(b) > yc(q))
    &&& if yc(b) - yc(a) > 0 {
        cross3(a, b, q) > 0
    } else {
        cross3(a, b, q) < 0
    }
}

/// How many of the first i ring edges of s cross the ray from q.
pub open spec fn crossings_upto(s: Seq<Coordinate>, q: Coordinate, i: int) -> int
    decreases i,
{
    if i <= 0 {
        0
    } else {
        crossings_upto(s, q, i - 1) + if edge_crosses(
            s[i - 1],
            s[i % s.len() as int],
            q,
        ) {
            1int
        } else {
            0int
        }
    }
}

/// q lies on ring edge i of s, the edge from vertex i to its successor.
pub open spec fn edge_on_segment(s: Seq<Coordinate>, q: Coordinate, i: int) -> bool {
    on_segment(s[i], s[(i + 1) % s.len() as int], q)
}

/// q lies on some edge of the ring s.
pub open spec fn on_boundary(s: Seq<Coordinate>, q: Coordinate) -> bool {
    exists|i: int| 0 <= i < s.len() && #[trigger] edge_on_segment(s, q, i)
}

/// Even-odd containment with the boundary counted as outside: q is inside
/// the ring s exactly when it is off every edge and the ray from q crosses
/// an odd number of edges.
pub open spec fn polygon_contains(s: Seq<Coordinate>, q: Coordinate) -> bool {
    &&& !on_boundary(s, q)
    &&& crossings_upto(s, q, s.len() as int) % 2 == 1
}

/// A point on a polygon edge is never reported as contained: the boundary
/// tie-break of the even-odd test.
pub proof fn lemma_boundary_not_contained(s: Seq<Coordinate>, q: Coordinate, i: int)
    requires
        0 <= i < s.len(),
        on_segment(s[i], s[(i + 1) % s.len() as int], q),
    ensures
        !polygon_contains(s, q),
{
    assert(edge_on_segment(s, q, i));
    assert(on_boundary(s, q));
}

/// The crossing count over i edges never exceeds i.
proof fn lemma_crossings_bound(s: Seq<Coordinate>, q: Coordinate, i: int)
    requires
        0 <= i,
    ensures
        0 <= crossings_upto(s, q, i) <= i,
    decreases i,
{
    if i > 0 {
        lemma_crossings_bound(s, q, i - 1);
    }
}

/// The magnitude of a product is bounded by the product of the magnitudes.
proof fn lemma_abs_mul_bound(x: int, y: int, a: int, b: int)
    by (nonlinear_arith)
    requires
        -a <= x <= a,
        -b <= y <= b,
        0 <= a,
        0 <= b,
    ensures
        -(a * b) <= x * y <= a * b,
{
}

/// Cross product of (b - a) with (q - a), computed exactly in 128 bits.
fn cross_edge(a: Coordinate, b: Coordinate, q: Coordinate) -> (t: i128)
    requires
        a.in_range(),
        b.in_range(),
    ensures
        t == cross3(a, b, q),
{
    let bx_ax: i128 = b.lon as i128 - a.lon as i128;
    let qy_ay: i128 = q.lat as i128 - a.lat as i128;
    let by_ay: i128 = b.lat as i128 - a.lat as i128;
    let qx_ax: i128 = q.lon as i128 - a.lon as i128;
    proof {
        lemma_abs_mul_bound(bx_ax as int, qy_ay as int, 4_000_000_000, 10_000_000_000_000_000_000);
        lemma_abs_mul_bound(by_ay as int, qx_ax as int, 4_000_000_000, 10_000_000_000_000_000_000);
    }
    bx_ax * qy_ay - by_ay * qx_ax
}

/// Index of the successor of vertex i on a ring of n vertices.
proof fn lemma_ring_wrap(i: int, n: int)
    requires
        0 <= i < n,
    ensures
        (i + 1) % n == if i + 1 == n {
            0int
        } else {
            i + 1
        },
{
    if i + 1 == n {
        assert(n % n == 0) by (nonlinear_arith)
            requires
                n > 0,
        ;
    } else {
        assert((i + 1) % n == i + 1) by (nonlinear_arith)
            requires
                0 <= i + 1 < n,
        ;
    }
}

/// Even-odd point-in-polygon test; a point on the boundary is outside.
pub fn contains(p: &Polygon, q: &Coordinate) -> (r: bool)
    requires
        p.wf(),
    ensures
        r == polygon_contains(p.points@, *q),
{
    let n = p.points.len();
    let mut crossings: u64 = 0;
    let mut i: usize = 0;
    while i < n
        invariant
            p.wf(),
            n == p.points@.len(),
            i <= n,
            crossings == crossings_upto(p.points@, *q, i as int),
            crossings <= i,
            forall|j: int| 0 <= j < i ==> !(#[trigger] edge_on_segment(p.points@, *q, j)),
        decreases n - i,
    {
        let a = p.points[i];
        let next = if i + 1 == n {
            0
        } else {
            i + 1
        };
        let b = p.points[next];
        proof {
            lemma_ring_wrap(i as int, n as int);
        }
        let t = cross_edge(a, b, *q);
        let on_lon = (a.lon <= q.lon && q.lon <= b.lon) || (b.lon <= q.lon && q.lon <= a.lon);
        let on_lat = (a.lat <= q.lat && q.lat <= b.lat) || (b.lat <= q.lat && q.lat <= a.lat);
        if t == 0 && on_lon && on_lat {
            proof {
                assert(edge_on_segment(p.points@, *q, i as int));
            }
            return false;
        }
        if (a.lat > q.lat) != (b.lat > q.lat) {
            let d_pos = b.lat > a.lat;
            if (d_pos && t > 0) || (!d_pos && t < 0) {
                proof {
                    lemma_crossings_bound(p.points@, *q, i as int);
                }
                crossings = crossings + 1;
            }
        }
        i += 1;
    }
    crossings % 2 == 1
}

/// Cross term of ring edge i: x_i * y_next - x_next * y_i.
pub open spec fn cr(s: Seq<Coordinate>, i: int) -> int {
    xc(s[i]) * yc(s[(i + 1) % s.len() as int]) - xc(s[(i + 1) % s.len() as int]) * yc(s[i])
}

/// Twice the signed area contributed by the first i ring edges.
pub open spec fn area2_upto(s: Seq<Coordinate>, i: int) -> int
    decreases i,
{
    if i <= 0 {
        0
    } else {
        area2_upto(s, i - 1) + cr(s, i - 1)
    }
}

/// Sum of the x coordinates of the first i vertices.
pub open spec fn sum_x_upto(s: Seq<Coordinate>, i: int) -> int
    decreases i,
{
    if i <= 0 {
        0
    } else {
        sum_x_upto(s, i - 1) + xc(s[i - 1])
    }
}

/// Sum of the y coordinates of the first i vertices.
pub open spec fn sum_y_upto(s: Seq<Coordinate>, i: int) -> int
    decreases i,
{
    if i <= 0 {
        0
    } else {
        sum_y_upto(s, i - 1) + yc(s[i - 1])
    }
}

/// Centroid numerator in x over the first i ring edges.
pub open spec fn cnum_x_upto(s: Seq<Coordinate>, i: int) -> int
    decreases i,
{
    if i <= 0 {
        0
    } else {
        cnum_x_upto(s, i - 1) + (xc(s[i - 1]) + xc(s[i % s.len() as int])) * cr(s, i - 1)
    }
}

/// Centroid numerator in y over the first i ring edges.
pub open spec fn cnum_y_upto(s: Seq<Coordinate>, i: int) -> int
    decreases i,
{
    if i <= 0 {
        0
    } else {
        cnum_y_upto(s, i - 1) + (yc(s[i - 1]) + yc(s[i % s.len() as int])) * cr(s, i - 1)
    }
}

/// Clamps a value into the valid coordinate range.
pub open spec fn clamp(v: int) -> int {
    if v < -(COORD_LIMIT as int) {
        -(COORD_LIMIT as int)
    } else if v > COORD_LIMIT as int {
        COORD_LIMIT as int
    } else {
        v
    }
}

/// The x coordinate of the ring centroid: the signed-area-weighted formula,
/// falling back to the plain vertex average when the ring has zero area.
/// Divisions round towards negative infinity.
pub open spec fn centroid_x(s: Seq<Coordinate>) -> int {
    let n = s.len() as int;
    let a2 = area2_upto(s, n);
    if a2 == 0 {
        sum_x_upto(s, n) / n
    } else if a2 > 0 {
        cnum_x_upto(s, n) / (3 * a2)
    } else {
        (-cnum_x_upto(s, n)) / (3 * (-a2))
    }
}

/// The y coordinate of the ring centroid; see `centroid_x`.
pub open spec fn centroid_y(s: Seq<Coordinate>) -> int {
    let n = s.len() as int;
    let a2 = area2_upto(s, n);
    if a2 == 0 {
        sum_y_upto(s, n) / n
    } else if a2 > 0 {
        cnum_y_upto(s, n) / (3 * a2)
    } else {
        (-cnum_y_upto(s, n)) / (3 * (-a2))
    }
}

/// The centroid of the ring, clamped into the coordinate range.
pub open spec fn centroid_point(s: Seq<Coordinate>) -> Coordinate {
    Coordinate { lat: clamp(centroid_y(s)) as i64, lon: clamp(centroid_x(s)) as i64 }
}

/// Rounding up a positive quotient equals the negated floor of the negated
/// fraction; the quotient stays within [1, m].
proof fn lemma_ceil_div(m: int, d: int)
    requires
        0 < m,
        0 < d,
    ensures
        (m + d - 1) / d == -((-m) / d),
        1 <= (m + d - 1) / d <= m,
{
    let q = m / d;
    let r = m % d;
    lemma_fundamental_div_mod(m, d);
    vstd::arithmetic::div_mod::lemma_mod_bound(m, d);
    vstd::arithmetic::div_mod::lemma_div_pos_is_pos(m, d);
    if r == 0 {
        assert(q * d + (d - 1) == m + d - 1 && (-q) * d + 0 == -m) by (nonlinear_arith)
            requires
                m == d * q + r,
                r == 0,
        ;
        lemma_fundamental_div_mod_converse(m + d - 1, d, q, d - 1);
        lemma_fundamental_div_mod_converse(-m, d, -q, 0);
        assert(q >= 1) by (nonlinear_arith)
            requires
                m == d * q + 0,
                m > 0,
                d > 0,
                q >= 0,
        ;
        assert(q <= m) by (nonlinear_arith)
            requires
                m == d * q,
                d >= 1,
                q >= 0,
        ;
    } else {
        assert((q + 1) * d + (r - 1) == m + d - 1 && (-(q + 1)) * d + (d - r) == -m)
            by (nonlinear_arith)
            requires
                m == d * q + r,
        ;
        lemma_fundamental_div_mod_converse(m + d - 1, d, q + 1, r - 1);
        lemma_fundamental_div_mod_converse(-m, d, -(q + 1), d - r);
        assert(q + 1 <= m) by (nonlinear_arith)
            requires
                m == d * q + r,
                d >= 1,
                q >= 0,
                r >= 1,
        ;
    }
}

/// Floor division of a bounded value by a bounded positive divisor.
fn div_floor(n: i128, d: i128) -> (q: i128)
    requires
        0 < d <= 100_000_000_000_000_000_000_000_000i128,
        -1_000_000_000_000_000_000_000_000_000_000_000_000i128 <= n
            <= 1_000_000_000_000_000_000_000_000_000_000_000_000i128,
    ensures
        q == n as int / d as int,
{
    if n >= 0 {
        let nn = n as u128;
        let dd = d as u128;
        proof {
            vstd::arithmetic::div_mod::lemma_div_nonincreasing(nn as int, dd as int);
            vstd::arithmetic::div_mod::lemma_div_pos_is_pos(nn as int, dd as int);
        }
        (nn / dd) as i128
    } else {
        let m = (-n) as u128;
        let dd = d as u128;
        proof {
            lemma_ceil_div(m as int, dd as int);
        }
        let q0 = (m + dd - 1) / dd;
        -(q0 as i128)
    }
}

/// Clamps a computed coordinate into the valid range.
fn clamp_exec(v: i128) -> (r: i128)
    ensures
        r == clamp(v as int),
        -COORD_LIMIT as int <= r <= COORD_LIMIT as int,
{
    if v < -(COORD_LIMIT as i128) {
        -(COORD_LIMIT as i128)
    } else if v > COORD_LIMIT as i128 {
        COORD_LIMIT as i128
    } else {
        v
    }
}

/// The arithmetic centroid of the polygon's vertex ring, using the
/// signed-area-weighted formula so that non-convex footprints centroid
/// correctly; a degenerate (zero-area) ring falls back to the unweighted
/// vertex average.
pub fn centroid(p: &Polygon) -> (c: Coordinate)
    requires
        p.wf(),
    ensures
        c == centroid_point(p.points@),
        c.in_range(),
{
    let n = p.points.len();
    let ghost s = p.points@;
    let mut a2: i128 = 0;
    let mut sx: i128 = 0;
    let mut sy: i128 = 0;
    let mut nx: i128 = 0;
    let mut ny: i128 = 0;
    let mut i: usize = 0;
    while i < n
        invariant
            p.wf(),
            s == p.points@,
            n == s.len(),
            i <= n,
            a2 == area2_upto(s, i as int),
            -(i as int) * 6_480_000_000_000_000_000 <= a2 <= (i as int)
                * 6_480_000_000_000_000_000,
            sx == sum_x_upto(s, i as int),
            -(i as int) * 1_800_000_000 <= sx <= (i as int) * 1_800_000_000,
            sy == sum_y_upto(s, i as int),
            -(i as int) * 1_800_000_000 <= sy <= (i as int) * 1_800_000_000,
            nx == cnum_x_upto(s, i as int),
            -(i as int) * 24_000_000_000_000_000_000_000_000_000 <= nx <= (i as int)
                * 24_000_000_000_000_000_000_000_000_000,
            ny == cnum_y_upto(s, i as int),
            -(i as int) * 24_000_000_000_000_000_000_000_000_000 <= ny <= (i as int)
                * 24_000_000_000_000_000_000_000_000_000,
        decreases n - i,
    {
        let a = p.points[i];
        let next = if i + 1 == n {
            0
        } else {
            i + 1
        };
        let b = p.points[next];
        proof {
            lemma_ring_wrap(i as int, n as int);
            lemma_abs_mul_bound(
                a.lon as int,
                b.lat as int,
                1_800_000_000,
                1_800_000_000,
            );
            lemma_abs_mul_bound(
                b.lon as int,
                a.lat as int,
                1_800_000_000,
                1_800_000_000,
            );
        }
        let crv: i128 = a.lon as i128 * b.lat as i128 - b.lon as i128 * a.lat as i128;
        proof {
            lemma_abs_mul_bound(
                a.lon as int + b.lon as int,
                crv as int,
                3_600_000_000,
                6_480_000_000_000_000_000,
            );
            lemma_abs_mul_bound(
                a.lat as int + b.lat as int,
                crv as int,
                3_600_000_000,
                6_480_000_000_000_000_000,
            );
        }
        let fx: i128 = (a.lon as i128 + b.lon as i128) * crv;
        let fy: i128 = (a.lat as i128 + b.lat as i128) * crv;
        a2 = a2 + crv;
        sx = sx + a.lon as i128;
        sy = sy + a.lat as i128;
        nx = nx + fx;
        ny = ny + fy;
        i += 1;
    }
    let cx: i128;
    let cy: i128;
    if a2 == 0 {
        cx = div_floor(sx, n as i128);
        cy = div_floor(sy, n as i128);
    } else if a2 > 0 {
        cx = div_floor(nx, 3 * a2);
        cy = div_floor(ny, 3 * a2);
    } else {
        cx = div_floor(-nx, 3 * (-a2));
        cy = div_floor(-ny, 3 * (-a2));
    }
    let cxl = clamp_exec(cx);
    let cyl = clamp_exec(cy);
    Coordinate { lat: cyl as i64, lon: cxl as i64 }
}

} // verus!
