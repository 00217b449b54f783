use vstd::prelude::*;
use crate::scene::mesh::{Mesh, MeshView, meshes_view};

pub mod mesh;

verus! {

/// The decoded top-level result: an ordered collection of meshes.
pub struct Scene {
    pub meshes: Vec<Mesh>,
}

impl View for Scene {
    type V = Seq<MeshView>;

    open spec fn view(&self) -> Seq<MeshView> {
        meshes_view(self.meshes@)
    }
}

impl Scene {
    /// Wraps an ordered list of meshes into a scene.
    pub fn new(meshes: Vec<Mesh>) -> (r: Scene)
        ensures
            r@ == meshes_view(meshes@),
    {
        Scene { meshes }
    }
}

} // verus!
