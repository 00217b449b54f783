use vstd::prelude::*;

pub mod face_vertex_iterator;

verus! {

/// One vertex position. Each coordinate is the IEEE-754 bit pattern of the
/// 64-bit floating-point value stored in the file; interpreting the bits as
/// a machine float is left to callers.
#[derive(Clone, Copy, PartialEq, Eq, Structural, Debug)]
pub struct Point3 {
    pub x: u64,
    pub y: u64,
    pub z: u64,
}

/// One polygon loop of a mesh: an ordered list of vertex indices, not
/// necessarily a triangle.
#[derive(Clone, Debug)]
pub struct Face {
    pub indices: Vec<i32>,
}

impl View for Face {
    type V = Seq<i32>;

    open spec fn view(&self) -> Seq<i32> {
        self.indices@
    }
}

impl Face {
    /// Wraps an ordered list of vertex indices into a face.
    pub fn new(indices: Vec<i32>) -> (r: Face)
        ensures
            r@ == indices@,
    {
        Face { indices }
    }
}

/// What a mesh is at specification level: its name, its vertex positions,
/// and its polygon loops as plain index sequences.
pub struct MeshView {
    pub name: Seq<char>,
    pub vertices: Seq<Point3>,
    pub faces: Seq<Seq<i32>>,
}

/// The faces of a mesh as plain index sequences, in order.
pub open spec fn faces_view(s: Seq<Face>) -> Seq<Seq<i32>> {
    Seq::new(s.len(), |i: int| s[i]@)
}

/// One named mesh: vertex positions and polygon face loops.
#[derive(Debug)]
pub struct Mesh {
    pub vertices: Vec<Point3>,
    pub faces: Vec<Face>,
    pub name: String,
}

impl View for Mesh {
    type V = MeshView;

    open spec fn view(&self) -> MeshView {
        MeshView { name: self.name@, vertices: self.vertices@, faces: faces_view(self.faces@) }
    }
}

/// The meshes of a scene at specification level, in order.
pub open spec fn meshes_view(s: Seq<Mesh>) -> Seq<MeshView> {
    Seq::new(s.len(), |i: int| s[i]@)
}

impl Mesh {
    /// Assembles a mesh from its name, vertex positions, and faces.
    pub fn new(name: String, vertices: Vec<Point3>, faces: Vec<Face>) -> (r: Mesh)
        ensures
            r@ == (MeshView { name: name@, vertices: vertices@, faces: faces_view(faces@) }),
    {
        Mesh { vertices, faces, name }
    }
}

} // verus!
