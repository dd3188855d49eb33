//! From a mesh to pixels: the transform into view space, the projection onto
//! the pixel grid, flat shading, and the drawing of whole meshes.
//!
//! View space is right-handed: `x` to the right, `y` upward, `z` toward the
//! viewer. The unit square of the plane `z = 0` fills the viewport.

use crate::context::{Cell, Context, ContextView};
use crate::fixed::{
    fixed_from_bits, floor_div, floor_sqrt, integer_sqrt, is_floor_sqrt, lemma_product_bound,
    lemma_representable_in_range, COORD_LIMIT, ONE,
};
use crate::geometry::{Point3, Rgb, SimpleMesh, Triangle};
use crate::raster::{
    draw_triangle, is_back_facing, lemma_draw_keeps_nearest, ScreenTriangle, ScreenVertex,
    SUBPIXEL,
};
use vstd::arithmetic::div_mod::{lemma_div_is_ordered, lemma_div_multiples_vanish};
use vstd::prelude::*;

verus! {

/// No entry of a transform exceeds 2 in magnitude.
pub const MATRIX_LIMIT: i64 = 0x2_0000;

/// Coordinates in view space lie between `-VIEW_LIMIT` and `VIEW_LIMIT`.
pub const VIEW_LIMIT: i64 = 0x4_0000_0000;

/// The least intensity that the default shader gives: dim, but not background.
pub const MIN_INTENSITY: u8 = 32;

/// A 4 by 4 matrix of fixed-point entries in row-major order. Its last row is
/// not used: points are transformed as by an affine map.
#[derive(Clone, Copy, PartialEq, Eq, Debug)]
pub struct Transform {
    pub rows: [i64; 16],
}

/// One coordinate of a transformed point: a row of the matrix applied to
/// `(p.x, p.y, p.z, 1)`, rounded down.
pub open spec fn axis_value(m0: int, m1: int, m2: int, m3: int, p: Point3) -> int {
    (m0 * p.x + m1 * p.y + m2 * p.z + m3 * ONE) / (ONE as int)
}

/// The quotient of `n` by a positive `d`, rounded toward zero.
pub open spec fn toward_zero(n: int, d: int) -> int {
    if n >= 0 {
        n / d
    } else {
        -((-n) / d)
    }
}

/// Whether all coordinates are within the limit of view space.
pub open spec fn in_view_range(p: Point3) -> bool {
    &&& -VIEW_LIMIT <= p.x <= VIEW_LIMIT
    &&& -VIEW_LIMIT <= p.y <= VIEW_LIMIT
    &&& -VIEW_LIMIT <= p.z <= VIEW_LIMIT
}

impl Transform {
    /// Every entry is within the limit.
    pub open spec fn wf(&self) -> bool {
        forall|i: int| 0 <= i < 16 ==> -MATRIX_LIMIT <= #[trigger] self.rows[i] <= MATRIX_LIMIT
    }

    /// The point in view space.
    pub open spec fn apply(&self, p: Point3) -> Point3 {
        Point3 {
            x: axis_value(
                self.rows[0] as int,
                self.rows[1] as int,
                self.rows[2] as int,
                self.rows[3] as int,
                p,
            ) as i64,
            y: axis_value(
                self.rows[4] as int,
                self.rows[5] as int,
                self.rows[6] as int,
                self.rows[7] as int,
                p,
            ) as i64,
            z: axis_value(
                self.rows[8] as int,
                self.rows[9] as int,
                self.rows[10] as int,
                self.rows[11] as int,
                p,
            ) as i64,
        }
    }

    /// The transform that changes nothing.
    pub fn identity() -> (t: Transform)
        ensures
            t.wf(),
            t.rows@ == seq![ONE, 0i64, 0i64, 0i64, 0i64, ONE, 0i64, 0i64, 0i64, 0i64, ONE, 0i64, 0i64,
                0i64, 0i64, ONE],
    {
        let t = Transform { rows: [ONE, 0, 0, 0, 0, ONE, 0, 0, 0, 0, ONE, 0, 0, 0, 0, ONE] };
        t
    }

    /// Whether every entry is within the limit.
    pub fn is_valid(&self) -> (ok: bool)
        ensures
            ok == self.wf(),
    {
        let mut i: usize = 0;
        while i < 16
            invariant
                i <= 16,
                forall|k: int| 0 <= k < i ==> -MATRIX_LIMIT <= #[trigger] self.rows[k] <= MATRIX_LIMIT,
            decreases 16 - i,
        {
            let entry: i64 = self.rows[i];
            if entry < -MATRIX_LIMIT || entry > MATRIX_LIMIT {
                return false;
            }
            i += 1;
        }
        true
    }

    /// The transform whose entries, in row-major order, are encoded by
    /// sixteen single-precision bit patterns. There is none when an entry is
    /// not a finite number of magnitude at most 2.
    pub fn from_bits(bits: &[u32; 16]) -> (r: Option<Transform>)
        ensures
            r.is_some() == (forall|k: int|
                0 <= k < 16 ==> entry_accepted(#[trigger] bits[k])),
            r matches Some(t) ==> t.wf() && forall|k: int|
                0 <= k < 16 ==> #[trigger] t.rows[k] == crate::fixed::fixed_of_bits(bits[k]),
    {
        let mut rows: [i64; 16] = [0, 0, 0, 0, 0, 0, 0, 0, 0, 0, 0, 0, 0, 0, 0, 0];
        let mut i: usize = 0;
        while i < 16
            invariant
                i <= 16,
                forall|k: int| 0 <= k < i ==> entry_accepted(#[trigger] bits[k]),
                forall|k: int|
                    0 <= k < i ==> #[trigger] rows[k] == crate::fixed::fixed_of_bits(bits[k]),
            decreases 16 - i,
        {
            match fixed_from_bits(bits[i]) {
                Some(entry) => {
                    if entry < -MATRIX_LIMIT || entry > MATRIX_LIMIT {
                        return None;
                    }
                    rows[i] = entry;
                },
                None => {
                    return None;
                },
            }
            i += 1;
        }
        Some(Transform { rows })
    }

    /// Transforms a point of model space into view space.
    pub fn transform_point(&self, p: Point3) -> (v: Point3)
        requires
            self.wf(),
            p.in_range(),
        ensures
            v == self.apply(p),
            in_view_range(v),
    {
        let x: i64 = transform_axis(self.rows[0], self.rows[1], self.rows[2], self.rows[3], p);
        let y: i64 = transform_axis(self.rows[4], self.rows[5], self.rows[6], self.rows[7], p);
        let z: i64 = transform_axis(self.rows[8], self.rows[9], self.rows[10], self.rows[11], p);
        Point3 { x, y, z }
    }
}

/// Whether a bit pattern encodes an entry that a transform may hold.
pub open spec fn entry_accepted(bits: u32) -> bool {
    crate::fixed::bits_representable(bits) && -MATRIX_LIMIT <= crate::fixed::fixed_of_bits(bits)
        <= MATRIX_LIMIT
}

fn transform_axis(m0: i64, m1: i64, m2: i64, m3: i64, p: Point3) -> (r: i64)
    requires
        -MATRIX_LIMIT <= m0 <= MATRIX_LIMIT,
        -MATRIX_LIMIT <= m1 <= MATRIX_LIMIT,
        -MATRIX_LIMIT <= m2 <= MATRIX_LIMIT,
        -MATRIX_LIMIT <= m3 <= MATRIX_LIMIT,
        p.in_range(),
    ensures
        r == axis_value(m0 as int, m1 as int, m2 as int, m3 as int, p),
        -VIEW_LIMIT <= r <= VIEW_LIMIT,
{
    proof {
        lemma_product_bound(m0 as int, p.x as int, MATRIX_LIMIT as int, COORD_LIMIT as int);
        lemma_product_bound(m1 as int, p.y as int, MATRIX_LIMIT as int, COORD_LIMIT as int);
        lemma_product_bound(m2 as int, p.z as int, MATRIX_LIMIT as int, COORD_LIMIT as int);
    }
    let sum: i64 = m0 * p.x + m1 * p.y + m2 * p.z + m3 * ONE;
    let quotient: i128 = floor_div(sum as i128, ONE as i128);
    quotient as i64
}

/// The projection of a point of view space onto a viewport of `width` by
/// `height` pixels: orthographic, the unit square filling the viewport, `y`
/// turned downward, and the depth growing away from the viewer.
pub open spec fn projected(v: Point3, width: int, height: int) -> ScreenVertex {
    ScreenVertex {
        x: (v.x * width / (SUBPIXEL as int)) as i64,
        y: (height * SUBPIXEL - v.y * height / (SUBPIXEL as int)) as i64,
        depth: (-v.z) as i64,
    }
}

/// Projects a point of view space onto the pixel grid.
pub fn project(v: Point3, width: usize, height: usize) -> (s: ScreenVertex)
    requires
        in_view_range(v),
        width <= 65535,
        height <= 65535,
    ensures
        s == projected(v, width as int, height as int),
        s.wf(),
{
    proof {
        lemma_product_bound(v.x as int, width as int, VIEW_LIMIT as int, 65535);
        lemma_product_bound(v.y as int, height as int, VIEW_LIMIT as int, 65535);
    }
    let across: i128 = floor_div((v.x * (width as i64)) as i128, SUBPIXEL as i128);
    let up: i128 = floor_div((v.y * (height as i64)) as i128, SUBPIXEL as i128);
    ScreenVertex {
        x: across as i64,
        y: ((height as i64) * SUBPIXEL - (up as i64)),
        depth: -v.z,
    }
}

/// The cross product of `b - a` and `c - a`: a normal of the face whose
/// length is twice its area. It points toward whoever sees `a`, `b`, `c`
/// run counter-clockwise.
pub open spec fn raw_normal(a: Point3, b: Point3, c: Point3) -> (int, int, int) {
    let ux = b.x - a.x;
    let uy = b.y - a.y;
    let uz = b.z - a.z;
    let vx = c.x - a.x;
    let vy = c.y - a.y;
    let vz = c.z - a.z;
    (uy * vz - uz * vy, uz * vx - ux * vz, ux * vy - uy * vx)
}

/// The normal of the face scaled to the length 1 in fixed point, or zero for
/// a face without area. Each component of the cross product is first divided
/// by 256 and then by the length of the result, rounding toward zero.
pub open spec fn unit_normal(a: Point3, b: Point3, c: Point3) -> Point3 {
    let n = raw_normal(a, b, c);
    let rx = toward_zero(n.0, 256);
    let ry = toward_zero(n.1, 256);
    let rz = toward_zero(n.2, 256);
    let length = floor_sqrt(rx * rx + ry * ry + rz * rz);
    if length == 0 {
        Point3 { x: 0, y: 0, z: 0 }
    } else {
        Point3 {
            x: toward_zero(rx * ONE, length) as i64,
            y: toward_zero(ry * ONE, length) as i64,
            z: toward_zero(rz * ONE, length) as i64,
        }
    }
}

/// One component of a cross product, as its sign and its magnitude divided by 256.
fn cross_component(p: i64, q: i64, r: i64, s: i64) -> (out: (bool, u128))
    requires
        -0x8_0000_0000 <= p <= 0x8_0000_0000,
        -0x8_0000_0000 <= q <= 0x8_0000_0000,
        -0x8_0000_0000 <= r <= 0x8_0000_0000,
        -0x8_0000_0000 <= s <= 0x8_0000_0000,
    ensures
        out.0 == (p * q - r * s < 0),
        out.1 <= 0x8000_0000_0000_0000,
        toward_zero(p * q - r * s, 256) == if out.0 {
            -(out.1 as int)
        } else {
            out.1 as int
        },
{
    proof {
        lemma_product_bound(p as int, q as int, 0x8_0000_0000, 0x8_0000_0000);
        lemma_product_bound(r as int, s as int, 0x8_0000_0000, 0x8_0000_0000);
    }
    let value: i128 = (p as i128) * (q as i128) - (r as i128) * (s as i128);
    if value < 0 {
        (true, ((-value) as u128) / 256)
    } else {
        (false, (value as u128) / 256)
    }
}

/// One component of the unit normal.
fn unit_component(negative: bool, magnitude: u128, length: u128) -> (out: i64)
    requires
        magnitude <= length,
        0 < length < 0x1_0000_0000_0000_0000,
    ensures
        -ONE <= out <= ONE,
        out == toward_zero(
            (if negative {
                -(magnitude as int)
            } else {
                magnitude as int
            }) * ONE,
            length as int,
        ),
{
    let scaled: u128 = magnitude * 65536;
    let quotient: u128 = scaled / length;
    proof {
        let len: int = length as int;
        lemma_div_is_ordered(scaled as int, len * 65536, len);
        lemma_div_multiples_vanish(65536, len);
    }
    if negative && magnitude > 0 {
        -(quotient as i64)
    } else {
        quotient as i64
    }
}

/// A number whose square is at most `sum` is at most the integer square root of `sum`.
proof fn lemma_at_most_root(m: int, sum: int, root: int)
    requires
        0 <= m,
        m * m <= sum,
        is_floor_sqrt(sum, root),
    ensures
        m <= root,
{
    if m >= root + 1 {
        assert(m * m >= (root + 1) * (root + 1)) by (nonlinear_arith)
            requires
                m >= root + 1,
                root + 1 >= 1,
        ;
    }
}

/// The unit normal of the face `a`, `b`, `c` of view space.
pub fn face_normal(a: Point3, b: Point3, c: Point3) -> (n: Point3)
    requires
        in_view_range(a),
        in_view_range(b),
        in_view_range(c),
    ensures
        n == unit_normal(a, b, c),
        -ONE <= n.x <= ONE,
        -ONE <= n.y <= ONE,
        -ONE <= n.z <= ONE,
        n.in_range(),
{
    let ux: i64 = b.x - a.x;
    let uy: i64 = b.y - a.y;
    let uz: i64 = b.z - a.z;
    let vx: i64 = c.x - a.x;
    let vy: i64 = c.y - a.y;
    let vz: i64 = c.z - a.z;
    let x: (bool, u128) = cross_component(uy, vz, uz, vy);
    let y: (bool, u128) = cross_component(uz, vx, ux, vz);
    let z: (bool, u128) = cross_component(ux, vy, uy, vx);
    let ghost rx: int = toward_zero(raw_normal(a, b, c).0, 256);
    let ghost ry: int = toward_zero(raw_normal(a, b, c).1, 256);
    let ghost rz: int = toward_zero(raw_normal(a, b, c).2, 256);
    proof {
        lemma_product_bound(x.1 as int, x.1 as int, 0x8000_0000_0000_0000, 0x8000_0000_0000_0000);
        lemma_product_bound(y.1 as int, y.1 as int, 0x8000_0000_0000_0000, 0x8000_0000_0000_0000);
        lemma_product_bound(z.1 as int, z.1 as int, 0x8000_0000_0000_0000, 0x8000_0000_0000_0000);
        assert(rx * rx == x.1 * x.1) by (nonlinear_arith)
            requires
                rx == x.1 || rx == -x.1,
        ;
        assert(ry * ry == y.1 * y.1) by (nonlinear_arith)
            requires
                ry == y.1 || ry == -y.1,
        ;
        assert(rz * rz == z.1 * z.1) by (nonlinear_arith)
            requires
                rz == z.1 || rz == -z.1,
        ;
        assert(x.1 * x.1 >= 0 && y.1 * y.1 >= 0 && z.1 * z.1 >= 0) by (nonlinear_arith);
    }
    let sum: u128 = x.1 * x.1 + y.1 * y.1 + z.1 * z.1;
    let length: u128 = integer_sqrt(sum);
    if length == 0 {
        return Point3 { x: 0, y: 0, z: 0 };
    }
    proof {
        lemma_at_most_root(x.1 as int, sum as int, length as int);
        lemma_at_most_root(y.1 as int, sum as int, length as int);
        lemma_at_most_root(z.1 as int, sum as int, length as int);
    }
    Point3 {
        x: unit_component(x.0, x.1, length),
        y: unit_component(y.0, y.1, length),
        z: unit_component(z.0, z.1, length),
    }
}

/// The direction from the scene toward the viewer, which is also where the
/// light of the default shader comes from.
pub open spec fn view_direction() -> Point3 {
    Point3 { x: 0, y: 0, z: ONE }
}

/// The inner product.
pub open spec fn dot(n: Point3, l: Point3) -> int {
    n.x * l.x + n.y * l.y + n.z * l.z
}

/// The intensity that the default shader gives a face: 255 times the cosine
/// of the angle between its normal and the direction of the light, kept
/// between `MIN_INTENSITY` and 255. A face turned away from the light, and a
/// zero normal or direction, get `MIN_INTENSITY`.
pub open spec fn default_shade(normal: Point3, light: Point3) -> u8 {
    let d = dot(normal, light);
    let m = floor_sqrt(dot(normal, normal)) * floor_sqrt(dot(light, light));
    if d <= 0 || m == 0 {
        MIN_INTENSITY
    } else if d * 255 / m < MIN_INTENSITY {
        MIN_INTENSITY
    } else if d * 255 / m > 255 {
        255u8
    } else {
        (d * 255 / m) as u8
    }
}

fn inner_product(n: Point3, l: Point3) -> (d: i128)
    requires
        n.in_range(),
        l.in_range(),
    ensures
        d == dot(n, l),
        -0xc000_0000_0000_0000 <= d <= 0xc000_0000_0000_0000,
{
    proof {
        lemma_product_bound(n.x as int, l.x as int, COORD_LIMIT as int, COORD_LIMIT as int);
        lemma_product_bound(n.y as int, l.y as int, COORD_LIMIT as int, COORD_LIMIT as int);
        lemma_product_bound(n.z as int, l.z as int, COORD_LIMIT as int, COORD_LIMIT as int);
    }
    (n.x as i128) * (l.x as i128) + (n.y as i128) * (l.y as i128) + (n.z as i128) * (l.z as i128)
}

fn vector_length(n: Point3) -> (r: u128)
    requires
        n.in_range(),
    ensures
        r == floor_sqrt(dot(n, n)),
        r <= 0x1_0000_0000,
{
    let square: i128 = inner_product(n, n);
    proof {
        assert(n.x * n.x >= 0 && n.y * n.y >= 0 && n.z * n.z >= 0) by (nonlinear_arith);
    }
    let r: u128 = integer_sqrt(square as u128);
    proof {
        if r > 0x1_0000_0000 {
            assert(r * r > 0xc000_0000_0000_0000) by (nonlinear_arith)
                requires
                    r >= 0x1_0000_0001,
            ;
        }
    }
    r
}

/// The default shader.
pub fn default_shader(normal: Point3, light: Point3) -> (intensity: u8)
    requires
        normal.in_range(),
        light.in_range(),
    ensures
        intensity == default_shade(normal, light),
        intensity >= MIN_INTENSITY,
{
    let d: i128 = inner_product(normal, light);
    let normal_length: u128 = vector_length(normal);
    let light_length: u128 = vector_length(light);
    proof {
        lemma_product_bound(
            normal_length as int,
            light_length as int,
            0x1_0000_0000,
            0x1_0000_0000,
        );
    }
    let m: u128 = normal_length * light_length;
    if d <= 0 || m == 0 {
        return MIN_INTENSITY;
    }
    let quotient: u128 = ((d as u128) * 255) / m;
    if quotient < MIN_INTENSITY as u128 {
        MIN_INTENSITY
    } else if quotient > 255 {
        255
    } else {
        quotient as u8
    }
}

/// The cell that a face is drawn with: the intensity from the shader, and the
/// colour of its first vertex or, where that has none, the grey of the intensity.
pub open spec fn shaded_cell(triangle: Triangle, intensity: u8) -> Cell {
    Cell {
        intensity,
        color: match triangle.v1.color {
            Some(color) => color,
            None => Rgb { r: intensity, g: intensity, b: intensity },
        },
    }
}

/// The normal that the shader is asked about for a face.
pub open spec fn shading_normal(triangle: Triangle, transform: Transform) -> Point3 {
    unit_normal(
        transform.apply(triangle.v1.position.point()),
        transform.apply(triangle.v2.position.point()),
        transform.apply(triangle.v3.position.point()),
    )
}

/// The face on the screen of a viewport of `width` by `height` pixels.
pub open spec fn screen_triangle(
    triangle: Triangle,
    transform: Transform,
    width: int,
    height: int,
) -> ScreenTriangle {
    ScreenTriangle {
        a: projected(transform.apply(triangle.v1.position.point()), width, height),
        b: projected(transform.apply(triangle.v2.position.point()), width, height),
        c: projected(transform.apply(triangle.v3.position.point()), width, height),
    }
}

/// Whether face `triangle` is left out: a face with a coordinate that is
/// no finite number of magnitude below 32768 is, since it lies out of the
/// range that is drawn; and back faces are, where they are culled.
pub open spec fn left_out(
    triangle: Triangle,
    transform: Transform,
    width: int,
    height: int,
    cull_back_faces: bool,
) -> bool {
    !triangle.drawable() || (cull_back_faces && screen_triangle(
        triangle,
        transform,
        width,
        height,
    ).back_facing())
}

/// The context after the faces were drawn in order, face `k` with the
/// intensity `shades[k]`, without the faces that are left out.
pub open spec fn drawn(
    context: ContextView,
    triangles: Seq<Triangle>,
    transform: Transform,
    shades: Seq<u8>,
    cull_back_faces: bool,
) -> ContextView
    decreases triangles.len(),
{
    if triangles.len() == 0 {
        context
    } else {
        let earlier = drawn(
            context,
            triangles.drop_last(),
            transform,
            shades.drop_last(),
            cull_back_faces,
        );
        if left_out(
            triangles.last(),
            transform,
            context.width as int,
            context.height as int,
            cull_back_faces,
        ) {
            earlier
        } else {
            earlier.with_triangle(
                screen_triangle(
                    triangles.last(),
                    transform,
                    context.width as int,
                    context.height as int,
                ),
                shaded_cell(triangles.last(), shades[triangles.len() - 1]),
            )
        }
    }
}

/// What drawing a mesh with a shader comes to: for some intensities that
/// the shader may have given for the unit normals of the faces that are not
/// left out, with the direction toward the viewer, the context is the one
/// after those faces were drawn.
pub open spec fn mesh_drawn<F: Fn(Point3, Point3) -> u8>(
    before: ContextView,
    after: ContextView,
    triangles: Seq<Triangle>,
    transform: Transform,
    shader: F,
    cull_back_faces: bool,
) -> bool {
    exists|shades: Seq<u8>|
        {
            &&& shades.len() == triangles.len()
            &&& forall|k: int|
                0 <= k < shades.len() && !left_out(
                    triangles[k],
                    transform,
                    before.width as int,
                    before.height as int,
                    cull_back_faces,
                ) ==> shader.ensures(
                    (shading_normal(triangles[k], transform), view_direction()),
                    #[trigger] shades[k],
                )
            &&& after == drawn(before, triangles, transform, shades, cull_back_faces)
        }
}

fn draw_faces<F: Fn(Point3, Point3) -> u8>(
    context: &mut Context,
    mesh: &SimpleMesh,
    transform: &Transform,
    shader: F,
    cull_back_faces: bool,
)
    requires
        old(context).wf(),
        transform.wf(),
        forall|n: Point3, l: Point3| n.in_range() && l.in_range() ==> shader.requires((n, l)),
    ensures
        final(context).wf(),
        mesh_drawn(
            old(context)@,
            final(context)@,
            mesh.triangles@,
            *transform,
            shader,
            cull_back_faces,
        ),
{
    let ghost before: ContextView = context@;
    let ghost mut shades: Seq<u8> = Seq::empty();
    let width: usize = context.width;
    let height: usize = context.height;
    let count: usize = mesh.triangles.len();
    let mut k: usize = 0;
    while k < count
        invariant
            k <= count,
            count == mesh.triangles@.len(),
            transform.wf(),
            before.wf(),
            before.width == width,
            before.height == height,
            context.wf(),
            context.width == width,
            context.height == height,
            forall|n: Point3, l: Point3| n.in_range() && l.in_range() ==> shader.requires((n, l)),
            shades.len() == k,
            forall|j: int|
                0 <= j < k && !left_out(
                    mesh.triangles@[j],
                    *transform,
                    width as int,
                    height as int,
                    cull_back_faces,
                ) ==> shader.ensures(
                    (shading_normal(mesh.triangles@[j], *transform), view_direction()),
                    #[trigger] shades[j],
                ),
            context@ == drawn(
                before,
                mesh.triangles@.take(k as int),
                *transform,
                shades,
                cull_back_faces,
            ),
        decreases count - k,
    {
        let triangle: Triangle = mesh.triangles[k];
        let ghost earlier: Seq<u8> = shades;
        let ghost mut shade: u8 = 0;
        match (
            triangle.v1.position.decode(),
            triangle.v2.position.decode(),
            triangle.v3.position.decode(),
        ) {
            (Some(p1), Some(p2), Some(p3)) => {
                let a: Point3 = transform.transform_point(p1);
                let b: Point3 = transform.transform_point(p2);
                let c: Point3 = transform.transform_point(p3);
                let screen = ScreenTriangle {
                    a: project(a, width, height),
                    b: project(b, width, height),
                    c: project(c, width, height),
                };
                if !(cull_back_faces && is_back_facing(&screen)) {
                    let intensity: u8 = shader(face_normal(a, b, c), Point3 { x: 0, y: 0, z: ONE });
                    let color: Rgb = match triangle.v1.color {
                        Some(color) => color,
                        None => Rgb { r: intensity, g: intensity, b: intensity },
                    };
                    draw_triangle(context, &screen, Cell { intensity, color });
                    proof {
                        shade = intensity;
                    }
                }
            },
            _ => {},
        }
        proof {
            shades = shades.push(shade);
        }
        proof {
            let prefix = mesh.triangles@.take(k + 1);
            assert(prefix.drop_last() =~= mesh.triangles@.take(k as int));
            assert(shades.drop_last() =~= earlier);
        }
        k += 1;
    }
    proof {
        assert(mesh.triangles@.take(count as int) =~= mesh.triangles@);
    }
}

/// Draws the faces of a mesh in order, whichever way they face, but for
/// those with a coordinate out of the range that is drawn. Each face
/// is transformed into view space and projected; the shader is asked once
/// for its intensity, with the unit normal of the face and the direction
/// toward the viewer; then the face is drawn as `draw_triangle` says, with
/// that intensity and the colour of its first vertex.
pub fn draw_mesh<F: Fn(Point3, Point3) -> u8>(
    context: &mut Context,
    mesh: &SimpleMesh,
    transform: &Transform,
    shader: F,
)
    requires
        old(context).wf(),
        transform.wf(),
        forall|n: Point3, l: Point3| n.in_range() && l.in_range() ==> shader.requires((n, l)),
    ensures
        final(context).wf(),
        mesh_drawn(old(context)@, final(context)@, mesh.triangles@, *transform, shader, false),
{
    draw_faces(context, mesh, transform, shader, false)
}

/// Draws the faces of a mesh as `draw_mesh` does, but leaves out the faces
/// that show their back on the screen; the shader is not asked about those.
pub fn draw_mesh_culled<F: Fn(Point3, Point3) -> u8>(
    context: &mut Context,
    mesh: &SimpleMesh,
    transform: &Transform,
    shader: F,
)
    requires
        old(context).wf(),
        transform.wf(),
        forall|n: Point3, l: Point3| n.in_range() && l.in_range() ==> shader.requires((n, l)),
    ensures
        final(context).wf(),
        mesh_drawn(old(context)@, final(context)@, mesh.triangles@, *transform, shader, true),
{
    draw_faces(context, mesh, transform, shader, true)
}

/// What drawing the first `count` meshes of a queue comes to: each mesh is
/// drawn, as `draw_mesh` does, into what the meshes before it left.
pub open spec fn queue_drawn<F: Fn(Point3, Point3) -> u8>(
    before: ContextView,
    after: ContextView,
    meshes: Seq<SimpleMesh>,
    transform: Transform,
    shader: F,
    count: nat,
) -> bool
    decreases count,
{
    if count == 0 {
        after == before
    } else {
        exists|earlier: ContextView|
            {
                &&& queue_drawn(before, earlier, meshes, transform, shader, (count - 1) as nat)
                &&& #[trigger] mesh_drawn(
                    earlier,
                    after,
                    meshes[count - 1]@,
                    transform,
                    shader,
                    false,
                )
            }
    }
}

/// Renders one frame: brings the context to the observed size of the
/// viewport, clears it, and draws every mesh of the queue in order, all
/// under the same transform and with the same shader. Where there is no
/// transform, because the rotation is no number, nothing is drawn.
pub fn render_frame<F: Fn(Point3, Point3) -> u8 + Copy>(
    context: &mut Context,
    size: (u16, u16),
    mesh_queue: &[SimpleMesh],
    transform: Option<&Transform>,
    shader: F,
)
    requires
        old(context).wf(),
        transform matches Some(t) ==> t.wf(),
        forall|n: Point3, l: Point3| n.in_range() && l.in_range() ==> shader.requires((n, l)),
    ensures
        final(context).wf(),
        match transform {
            Some(t) => queue_drawn(
                old(context)@.updated(size.0 as nat, size.1 as nat).cleared(),
                final(context)@,
                mesh_queue@,
                *t,
                shader,
                mesh_queue@.len(),
            ),
            None => final(context)@ == old(context)@.updated(
                size.0 as nat,
                size.1 as nat,
            ).cleared(),
        },
{
    context.update(size, mesh_queue);
    context.clear();
    let transform: &Transform = match transform {
        Some(transform) => transform,
        None => {
            return;
        },
    };
    let ghost start: ContextView = context@;
    let mut k: usize = 0;
    while k < mesh_queue.len()
        invariant
            k <= mesh_queue@.len(),
            context.wf(),
            transform.wf(),
            forall|n: Point3, l: Point3| n.in_range() && l.in_range() ==> shader.requires((n, l)),
            queue_drawn(start, context@, mesh_queue@, *transform, shader, k as nat),
        decreases mesh_queue@.len() - k,
    {
        let ghost earlier: ContextView = context@;
        draw_mesh(context, &mesh_queue[k], transform, shader);
        proof {
            let done: nat = (k + 1) as nat;
            assert(mesh_drawn(
                earlier,
                context@,
                mesh_queue@[done - 1]@,
                *transform,
                shader,
                false,
            ));
        }
        k += 1;
    }
}

/// A transformed point of a mesh lies within the limit of view space.
pub proof fn lemma_apply_in_view_range(transform: Transform, p: Point3)
    requires
        transform.wf(),
        p.in_range(),
    ensures
        in_view_range(transform.apply(p)),
{
    let m = transform.rows;
    lemma_product_bound(m[0] as int, p.x as int, MATRIX_LIMIT as int, COORD_LIMIT as int);
    lemma_product_bound(m[1] as int, p.y as int, MATRIX_LIMIT as int, COORD_LIMIT as int);
    lemma_product_bound(m[2] as int, p.z as int, MATRIX_LIMIT as int, COORD_LIMIT as int);
    lemma_product_bound(m[4] as int, p.x as int, MATRIX_LIMIT as int, COORD_LIMIT as int);
    lemma_product_bound(m[5] as int, p.y as int, MATRIX_LIMIT as int, COORD_LIMIT as int);
    lemma_product_bound(m[6] as int, p.z as int, MATRIX_LIMIT as int, COORD_LIMIT as int);
    lemma_product_bound(m[8] as int, p.x as int, MATRIX_LIMIT as int, COORD_LIMIT as int);
    lemma_product_bound(m[9] as int, p.y as int, MATRIX_LIMIT as int, COORD_LIMIT as int);
    lemma_product_bound(m[10] as int, p.z as int, MATRIX_LIMIT as int, COORD_LIMIT as int);
}

/// A projected point of view space lies within the limits of the screen.
pub proof fn lemma_projected_wf(v: Point3, width: int, height: int)
    requires
        in_view_range(v),
        0 <= width <= 65535,
        0 <= height <= 65535,
    ensures
        projected(v, width, height).wf(),
{
    lemma_product_bound(v.x as int, width, VIEW_LIMIT as int, 65535);
    lemma_product_bound(v.y as int, height, VIEW_LIMIT as int, 65535);
}

/// A face that can be drawn lies within the limits of the screen.
pub proof fn lemma_screen_triangle_wf(
    triangle: Triangle,
    transform: Transform,
    width: int,
    height: int,
)
    requires
        triangle.drawable(),
        transform.wf(),
        0 <= width <= 65535,
        0 <= height <= 65535,
    ensures
        screen_triangle(triangle, transform, width, height).wf(),
{
    lemma_representable_in_range(triangle.v1.position.x);
    lemma_representable_in_range(triangle.v1.position.y);
    lemma_representable_in_range(triangle.v1.position.z);
    lemma_representable_in_range(triangle.v2.position.x);
    lemma_representable_in_range(triangle.v2.position.y);
    lemma_representable_in_range(triangle.v2.position.z);
    lemma_representable_in_range(triangle.v3.position.x);
    lemma_representable_in_range(triangle.v3.position.y);
    lemma_representable_in_range(triangle.v3.position.z);
    lemma_apply_in_view_range(transform, triangle.v1.position.point());
    lemma_apply_in_view_range(transform, triangle.v2.position.point());
    lemma_apply_in_view_range(transform, triangle.v3.position.point());
    lemma_projected_wf(transform.apply(triangle.v1.position.point()), width, height);
    lemma_projected_wf(transform.apply(triangle.v2.position.point()), width, height);
    lemma_projected_wf(transform.apply(triangle.v3.position.point()), width, height);
}

/// Drawing faces keeps the size of the context and moves no pixel away
/// from the viewer.
pub proof fn lemma_drawn_not_deeper(
    context: ContextView,
    triangles: Seq<Triangle>,
    transform: Transform,
    shades: Seq<u8>,
    cull_back_faces: bool,
    i: int,
)
    requires
        context.wf(),
        transform.wf(),
        0 <= i < context.depths.len(),
    ensures
        drawn(context, triangles, transform, shades, cull_back_faces).wf(),
        drawn(context, triangles, transform, shades, cull_back_faces).width == context.width,
        drawn(context, triangles, transform, shades, cull_back_faces).height == context.height,
        drawn(context, triangles, transform, shades, cull_back_faces).depths[i]
            <= context.depths[i],
    decreases triangles.len(),
{
    if triangles.len() > 0 {
        let last = triangles.last();
        let width = context.width as int;
        let height = context.height as int;
        lemma_drawn_not_deeper(
            context,
            triangles.drop_last(),
            transform,
            shades.drop_last(),
            cull_back_faces,
            i,
        );
        if !left_out(last, transform, width, height, cull_back_faces) {
            lemma_screen_triangle_wf(last, transform, width, height);
            lemma_draw_keeps_nearest(
                drawn(context, triangles.drop_last(), transform, shades.drop_last(), cull_back_faces),
                screen_triangle(last, transform, width, height),
                shaded_cell(last, shades[triangles.len() - 1]),
                i,
            );
        }
    }
}

/// The nearest wins in a whole mesh. After the faces were drawn in order,
/// every pixel is at most as deep as each face that was not left out and
/// covers its centre is there.
pub proof fn lemma_drawn_keeps_nearest(
    context: ContextView,
    triangles: Seq<Triangle>,
    transform: Transform,
    shades: Seq<u8>,
    cull_back_faces: bool,
    k: int,
    i: int,
)
    requires
        context.wf(),
        transform.wf(),
        0 <= k < triangles.len(),
        0 <= i < context.depths.len(),
        !left_out(
            triangles[k],
            transform,
            context.width as int,
            context.height as int,
            cull_back_faces,
        ),
        screen_triangle(
            triangles[k],
            transform,
            context.width as int,
            context.height as int,
        ).covers_pixel(context.column_of(i), context.row_of(i)),
    ensures
        drawn(context, triangles, transform, shades, cull_back_faces).depths[i] <= screen_triangle(
            triangles[k],
            transform,
            context.width as int,
            context.height as int,
        ).depth_at_pixel(context.column_of(i), context.row_of(i)),
    decreases triangles.len(),
{
    let last = triangles.last();
    let width = context.width as int;
    let height = context.height as int;
    let earlier = drawn(
        context,
        triangles.drop_last(),
        transform,
        shades.drop_last(),
        cull_back_faces,
    );
    lemma_drawn_not_deeper(
        context,
        triangles.drop_last(),
        transform,
        shades.drop_last(),
        cull_back_faces,
        i,
    );
    if k < triangles.len() - 1 {
        lemma_drawn_keeps_nearest(
            context,
            triangles.drop_last(),
            transform,
            shades.drop_last(),
            cull_back_faces,
            k,
            i,
        );
    }
    if !left_out(last, transform, width, height, cull_back_faces) {
        lemma_screen_triangle_wf(last, transform, width, height);
        lemma_draw_keeps_nearest(
            earlier,
            screen_triangle(last, transform, width, height),
            shaded_cell(last, shades[triangles.len() - 1]),
            i,
        );
    }
}

/// The nearest wins in a whole frame. After the meshes of a queue were
/// drawn in order, the context has kept its size, no pixel is deeper than
/// it was, and every pixel is at most as deep as each face of each mesh
/// that was not left out and covers its centre is there.
pub proof fn lemma_queue_keeps_nearest<F: Fn(Point3, Point3) -> u8>(
    before: ContextView,
    after: ContextView,
    meshes: Seq<SimpleMesh>,
    transform: Transform,
    shader: F,
    count: nat,
    m: int,
    k: int,
    i: int,
)
    requires
        before.wf(),
        transform.wf(),
        queue_drawn(before, after, meshes, transform, shader, count),
        0 <= i < before.depths.len(),
    ensures
        after.wf(),
        after.width == before.width,
        after.height == before.height,
        after.depths[i] <= before.depths[i],
        0 <= m < count && 0 <= k < meshes[m]@.len() && !left_out(
            meshes[m]@[k],
            transform,
            before.width as int,
            before.height as int,
            false,
        ) && screen_triangle(
            meshes[m]@[k],
            transform,
            before.width as int,
            before.height as int,
        ).covers_pixel(before.column_of(i), before.row_of(i)) ==> after.depths[i]
            <= screen_triangle(
            meshes[m]@[k],
            transform,
            before.width as int,
            before.height as int,
        ).depth_at_pixel(before.column_of(i), before.row_of(i)),
    decreases count,
{
    if count > 0 {
        let earlier = choose|earlier: ContextView|
            {
                &&& queue_drawn(before, earlier, meshes, transform, shader, (count - 1) as nat)
                &&& #[trigger] mesh_drawn(
                    earlier,
                    after,
                    meshes[count - 1]@,
                    transform,
                    shader,
                    false,
                )
            };
        lemma_queue_keeps_nearest(
            before,
            earlier,
            meshes,
            transform,
            shader,
            (count - 1) as nat,
            m,
            k,
            i,
        );
        let triangles = meshes[count - 1]@;
        let shades = choose|shades: Seq<u8>|
            {
                &&& shades.len() == triangles.len()
                &&& forall|j: int|
                    0 <= j < shades.len() && !left_out(
                        triangles[j],
                        transform,
                        earlier.width as int,
                        earlier.height as int,
                        false,
                    ) ==> shader.ensures(
                        (shading_normal(triangles[j], transform), view_direction()),
                        #[trigger] shades[j],
                    )
                &&& after == drawn(earlier, triangles, transform, shades, false)
            };
        lemma_drawn_not_deeper(earlier, triangles, transform, shades, false, i);
        if m == count - 1 && 0 <= k < triangles.len() && !left_out(
            triangles[k],
            transform,
            before.width as int,
            before.height as int,
            false,
        ) && screen_triangle(
            triangles[k],
            transform,
            before.width as int,
            before.height as int,
        ).covers_pixel(before.column_of(i), before.row_of(i)) {
            lemma_drawn_keeps_nearest(earlier, triangles, transform, shades, false, k, i);
        }
    }
}

} // verus!
