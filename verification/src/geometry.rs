//! The triangle-mesh model: self-contained triangles whose vertices keep the
//! coordinates of the source, bit for bit.

use crate::fixed::{
    bits_negative, bits_representable, fixed_from_bits, fixed_of_bits, in_coord_range, COORD_LIMIT,
    ONE,
};
use vstd::prelude::*;

verus! {

/// A point or direction with fixed-point coordinates.
#[derive(Clone, Copy, PartialEq, Eq, Debug, Structural)]
pub struct Point3 {
    pub x: i64,
    pub y: i64,
    pub z: i64,
}

impl Point3 {
    /// All three coordinates are within the range that is drawn.
    pub open spec fn in_range(self) -> bool {
        in_coord_range(self.x as int) && in_coord_range(self.y as int) && in_coord_range(
            self.z as int,
        )
    }

    /// Whether all three coordinates are within range.
    pub fn is_in_range(&self) -> (ok: bool)
        ensures
            ok == self.in_range(),
    {
        -COORD_LIMIT < self.x && self.x < COORD_LIMIT && -COORD_LIMIT < self.y && self.y
            < COORD_LIMIT && -COORD_LIMIT < self.z && self.z < COORD_LIMIT
    }
}

/// A colour of three eight-bit channels.
#[derive(Clone, Copy, PartialEq, Eq, Debug, Structural)]
pub struct Rgb {
    pub r: u8,
    pub g: u8,
    pub b: u8,
}

/// A position in model space: three single-precision bit patterns, as the
/// source gave them.
#[derive(Clone, Copy, PartialEq, Eq, Debug, Structural)]
pub struct Position {
    pub x: u32,
    pub y: u32,
    pub z: u32,
}

impl Position {
    /// Every coordinate is a finite number of magnitude below 32768, which
    /// is what can be drawn.
    pub open spec fn representable(self) -> bool {
        bits_representable(self.x) && bits_representable(self.y) && bits_representable(self.z)
    }

    /// The position in fixed point, each coordinate rounded toward zero.
    pub open spec fn point(self) -> Point3 {
        Point3 {
            x: fixed_of_bits(self.x) as i64,
            y: fixed_of_bits(self.y) as i64,
            z: fixed_of_bits(self.z) as i64,
        }
    }

    /// The position in fixed point, if it can be drawn.
    pub fn decode(&self) -> (r: Option<Point3>)
        ensures
            r.is_some() == self.representable(),
            r matches Some(p) ==> p == self.point() && p.in_range(),
    {
        match (fixed_from_bits(self.x), fixed_from_bits(self.y), fixed_from_bits(self.z)) {
            (Some(x), Some(y), Some(z)) => Some(Point3 { x, y, z }),
            _ => None,
        }
    }
}

/// A corner of a triangle: a position in model space, with an optional normal and colour.
#[derive(Clone, Copy, PartialEq, Eq, Debug)]
pub struct Vertex {
    pub position: Position,
    pub normal: Option<Position>,
    pub color: Option<Rgb>,
}

/// Three vertices. Their order is the winding of the face.
#[derive(Clone, Copy, PartialEq, Eq, Debug)]
pub struct Triangle {
    pub v1: Vertex,
    pub v2: Vertex,
    pub v3: Vertex,
}

impl Triangle {
    /// All three positions can be drawn.
    pub open spec fn drawable(self) -> bool {
        self.v1.position.representable() && self.v2.position.representable()
            && self.v3.position.representable()
    }
}

/// An ordered sequence of triangles that share no storage.
#[derive(Clone, PartialEq, Eq, Debug)]
pub struct SimpleMesh {
    pub triangles: Vec<Triangle>,
}

impl View for SimpleMesh {
    type V = Seq<Triangle>;

    open spec fn view(&self) -> Seq<Triangle> {
        self.triangles@
    }
}

/// What a loader hands over for one model: positions as single-precision bit
/// patterns, three to a vertex, and vertex indices, three to a face.
#[derive(Clone, PartialEq, Eq, Debug)]
pub struct SourceModel {
    pub positions: Vec<u32>,
    pub indices: Vec<usize>,
    /// The index of the material of all faces, if the model has one.
    pub material_id: Option<usize>,
}

/// A material as far as the renderer reads it: the diffuse colour as three
/// single-precision bit patterns, if the material has one.
#[derive(Clone, Copy, PartialEq, Eq, Debug)]
pub struct Material {
    pub diffuse: Option<[u32; 3]>,
}

/// Why a source model is not a triangle mesh.
#[derive(Clone, Copy, PartialEq, Eq, Debug, Structural)]
pub enum GeometryError {
    /// The positions do not come in threes.
    PartialVertex,
    /// The indices do not come in threes: some face is not a triangle.
    PartialFace,
    /// An index names a vertex that the model does not have.
    Index,
}

/// The first defect of a source model, in the order of the variants of
/// [`GeometryError`], or none when it is a triangle mesh.
pub open spec fn defect_of(positions: Seq<u32>, indices: Seq<usize>) -> Option<GeometryError> {
    if positions.len() % 3 != 0 {
        Some(GeometryError::PartialVertex)
    } else if indices.len() % 3 != 0 {
        Some(GeometryError::PartialFace)
    } else if exists|k: int| 0 <= k < indices.len() && #[trigger] indices[k] >= positions.len() / 3 {
        Some(GeometryError::Index)
    } else {
        None
    }
}

/// The position of vertex `v`.
pub open spec fn position_of(positions: Seq<u32>, v: int) -> Position {
    Position { x: positions[3 * v], y: positions[3 * v + 1], z: positions[3 * v + 2] }
}

/// Vertex `v` as a corner of a face of the given colour.
pub open spec fn corner_of(positions: Seq<u32>, v: int, color: Option<Rgb>) -> Vertex {
    Vertex { position: position_of(positions, v), normal: None, color }
}

/// Face `f`: its three corners in the order of its indices.
pub open spec fn face_of(
    positions: Seq<u32>,
    indices: Seq<usize>,
    f: int,
    color: Option<Rgb>,
) -> Triangle {
    Triangle {
        v1: corner_of(positions, indices[3 * f] as int, color),
        v2: corner_of(positions, indices[3 * f + 1] as int, color),
        v3: corner_of(positions, indices[3 * f + 2] as int, color),
    }
}

/// All faces in the order of the indices.
pub open spec fn faces_of(positions: Seq<u32>, indices: Seq<usize>, color: Option<Rgb>) -> Seq<
    Triangle,
> {
    Seq::new((indices.len() / 3) as nat, |f: int| face_of(positions, indices, f, color))
}

/// A colour channel from a bit pattern: 255 times the encoded number, kept
/// between 0 and 255. A pattern with the sign bit set gives 0, any other
/// that has no fixed-point value gives 255.
pub open spec fn channel_of_bits(bits: u32) -> u8 {
    if bits_negative(bits) {
        0u8
    } else if !bits_representable(bits) {
        255u8
    } else if fixed_of_bits(bits) * 255 / (ONE as int) > 255 {
        255u8
    } else {
        (fixed_of_bits(bits) * 255 / (ONE as int)) as u8
    }
}

/// The colour of a material, if it has a diffuse colour.
pub open spec fn material_color(material: Material) -> Option<Rgb> {
    match material.diffuse {
        Some(diffuse) => Some(
            Rgb {
                r: channel_of_bits(diffuse[0]),
                g: channel_of_bits(diffuse[1]),
                b: channel_of_bits(diffuse[2]),
            },
        ),
        None => None,
    }
}

/// The colour that the material index of a model resolves to: that of the
/// material it names, and none when it names none of the list.
pub open spec fn resolved_color(material_id: Option<usize>, materials: Seq<Material>) -> Option<
    Rgb,
> {
    match material_id {
        Some(id) => if id < materials.len() {
            material_color(materials[id as int])
        } else {
            None
        },
        None => None,
    }
}

/// A colour channel from a single-precision bit pattern.
pub fn channel_from_bits(bits: u32) -> (c: u8)
    ensures
        c == channel_of_bits(bits),
{
    if bits >= 0x8000_0000u32 {
        return 0;
    }
    match fixed_from_bits(bits) {
        None => 255,
        Some(value) => {
            let scaled: i64 = value * 255 / ONE;
            if scaled > 255 {
                255
            } else {
                scaled as u8
            }
        },
    }
}

impl Material {
    /// The colour of the material, if it has a diffuse colour.
    pub fn color(&self) -> (c: Option<Rgb>)
        ensures
            c == material_color(*self),
    {
        match self.diffuse {
            Some(diffuse) => Some(
                Rgb {
                    r: channel_from_bits(diffuse[0]),
                    g: channel_from_bits(diffuse[1]),
                    b: channel_from_bits(diffuse[2]),
                },
            ),
            None => None,
        }
    }
}

impl SourceModel {
    /// The model is a triangle mesh: see [`defect_of`].
    pub open spec fn well_formed(&self) -> bool {
        defect_of(self.positions@, self.indices@) is None
    }

    /// Finds the first defect of the model, if it has one.
    pub fn check(&self) -> (r: Result<(), GeometryError>)
        ensures
            match r {
                Ok(()) => defect_of(self.positions@, self.indices@) is None,
                Err(e) => defect_of(self.positions@, self.indices@) == Some(e),
            },
    {
        if self.positions.len() % 3 != 0 {
            return Err(GeometryError::PartialVertex);
        }
        if self.indices.len() % 3 != 0 {
            return Err(GeometryError::PartialFace);
        }
        let vertices: usize = self.positions.len() / 3;
        let mut k: usize = 0;
        while k < self.indices.len()
            invariant
                k <= self.indices@.len(),
                vertices == self.positions@.len() / 3,
                self.positions@.len() % 3 == 0,
                self.indices@.len() % 3 == 0,
                forall|i: int| 0 <= i < k ==> #[trigger] self.indices@[i] < vertices,
            decreases self.indices@.len() - k,
        {
            if self.indices[k] >= vertices {
                return Err(GeometryError::Index);
            }
            k += 1;
        }
        Ok(())
    }

    /// A triangle mesh has whole vertices and faces, and indices of
    /// vertices that it has.
    pub open spec fn sound(&self) -> bool {
        &&& self.positions@.len() % 3 == 0
        &&& self.indices@.len() % 3 == 0
        &&& forall|k: int|
            0 <= k < self.indices@.len() ==> #[trigger] self.indices@[k] < self.positions@.len() / 3
    }

    fn corner(&self, v: usize, color: Option<Rgb>) -> (c: Vertex)
        requires
            self.sound(),
            v < self.positions.len() / 3,
        ensures
            c == corner_of(self.positions@, v as int, color),
    {
        Vertex {
            position: Position {
                x: self.positions[3 * v],
                y: self.positions[3 * v + 1],
                z: self.positions[3 * v + 2],
            },
            normal: None,
            color,
        }
    }

    fn convert(&self, color: Option<Rgb>) -> (mesh: SimpleMesh)
        requires
            self.well_formed(),
        ensures
            mesh@ == faces_of(self.positions@, self.indices@, color),
    {
        let count: usize = self.indices.len();
        let faces: usize = count / 3;
        let mut triangles: Vec<Triangle> = Vec::new();
        let mut f: usize = 0;
        while f < faces
            invariant
                self.sound(),
                count == self.indices@.len(),
                faces == count / 3,
                f <= faces,
                triangles@.len() == f,
                forall|i: int|
                    0 <= i < f ==> #[trigger] triangles@[i] == face_of(
                        self.positions@,
                        self.indices@,
                        i,
                        color,
                    ),
            decreases faces - f,
        {
            let v1: Vertex = self.corner(self.indices[3 * f], color);
            let v2: Vertex = self.corner(self.indices[3 * f + 1], color);
            let v3: Vertex = self.corner(self.indices[3 * f + 2], color);
            triangles.push(Triangle { v1, v2, v3 });
            f += 1;
        }
        SimpleMesh { triangles }
    }

    /// The triangles of the model, in the order of its faces and each with
    /// its corners in the order of its indices, without colour. The
    /// coordinates are kept as they are, whatever they encode.
    pub fn to_simple_mesh(&self) -> (mesh: SimpleMesh)
        requires
            self.well_formed(),
        ensures
            mesh@ == faces_of(self.positions@, self.indices@, None),
    {
        self.convert(None)
    }

    /// The triangles of the model as [`SourceModel::to_simple_mesh`] gives
    /// them, each with the colour that the material index of the model
    /// resolves to.
    pub fn to_simple_mesh_with_materials(&self, materials: &[Material]) -> (mesh: SimpleMesh)
        requires
            self.well_formed(),
        ensures
            mesh@ == faces_of(
                self.positions@,
                self.indices@,
                resolved_color(self.material_id, materials@),
            ),
    {
        let color: Option<Rgb> = match self.material_id {
            Some(id) => if id < materials.len() {
                materials[id].color()
            } else {
                None
            },
            None => None,
        };
        self.convert(color)
    }
}

} // verus!
