use vstd::prelude::*;
use crate::fbx::{ParseError, ParseErrorKind};
use crate::fbx::node::{NodeRecord, NodeView, nodes_view};
use crate::fbx::node_collection::{NodeCollection, positions_of};
use crate::fbx::property::{PropertyRecordType, PropertyView};
use crate::scene::Scene;
use crate::scene::mesh::{Face, Mesh, MeshView, Point3, faces_view, meshes_view};

verus! {

// ---------------------------------------------------------------------------
// Polygon face loops.
//
// A `PolygonVertexIndex` array concatenates one or more loops: indices
// accumulate into the current face until a negative value ends it, and the
// true final index of the face is the bitwise complement of that value.
// ---------------------------------------------------------------------------

/// The true vertex index hidden in a negative terminator: its bitwise
/// complement, which for two's complement values equals `-1 - v`.
pub open spec fn complement(v: i32) -> i32 {
    (-1 - v) as i32
}

/// The position of the first negative value of `s`, or `s.len()` if there
/// is none.
pub open spec fn first_neg(s: Seq<i32>) -> int
    decreases s.len(),
{
    if s.len() == 0 {
        0
    } else if s[0] < 0 {
        0
    } else {
        1 + first_neg(s.drop_first())
    }
}

/// `first_neg` stays within `0 ..= s.len()`.
pub proof fn lemma_first_neg_bounds(s: Seq<i32>)
    ensures
        0 <= first_neg(s) <= s.len(),
    decreases s.len(),
{
    if s.len() > 0 && !(s[0] < 0) {
        lemma_first_neg_bounds(s.drop_first());
    }
}

/// `first_neg` finds exactly the position a left-to-right scan stops at.
pub proof fn lemma_first_neg_is(s: Seq<i32>, k: int)
    requires
        0 <= k <= s.len(),
        forall|j: int| 0 <= j < k ==> s[j] >= 0,
        k < s.len() ==> s[k] < 0,
    ensures
        first_neg(s) == k,
    decreases s.len(),
{
    if s.len() == 0 {
    } else if s[0] < 0 {
        assert(k == 0);
    } else {
        assert(k > 0);
        let t = s.drop_first();
        assert(forall|j: int| 0 <= j < k - 1 ==> t[j] == s[j + 1] && t[j] >= 0);
        assert(k - 1 < t.len() ==> t[k - 1] == s[k] && t[k - 1] < 0);
        lemma_first_neg_is(t, k - 1);
    }
}

#[via_fn]
proof fn spec_faces_decreases(idx: Seq<i32>) {
    lemma_first_neg_bounds(idx);
}

/// The polygon loops encoded by an index array: indices up to each
/// negative terminator form one face, whose last index is the terminator's
/// complement; indices left over at the end form a final face of their
/// own, and an empty array encodes no faces.
pub open spec fn spec_faces(idx: Seq<i32>) -> Seq<Seq<i32>>
    decreases idx.len(),
    via spec_faces_decreases
{
    if idx.len() == 0 {
        Seq::empty()
    } else {
        let k = first_neg(idx);
        if k < idx.len() {
            seq![idx.take(k).push(complement(idx[k]))] + spec_faces(idx.skip(k + 1))
        } else {
            seq![idx]
        }
    }
}

/// Splits an index array into its polygon faces, one per call to `next`.
pub struct FaceIterator<'a> {
    indices: &'a Vec<i32>,
    cursor: usize,
}

impl<'a> FaceIterator<'a> {
    /// The indices not yet split into faces.
    pub closed spec fn remaining(&self) -> Seq<i32> {
        if self.cursor <= self.indices@.len() {
            self.indices@.skip(self.cursor as int)
        } else {
            Seq::empty()
        }
    }

    /// Starts splitting `indices` into faces.
    pub fn from(indices: &'a Vec<i32>) -> (r: FaceIterator<'a>)
        ensures
            r.remaining() == indices@,
    {
        let r = FaceIterator { indices, cursor: 0 };
        proof {
            assert(r.remaining() =~= indices@);
        }
        r
    }

    /// Hands out the next face, or `None` once every index is used up.
    #[verifier::loop_isolation(false)]
    pub fn next(&mut self) -> (r: Option<Face>)
        ensures
            match r {
                Some(f) => spec_faces(old(self).remaining()) == seq![f@] + spec_faces(
                    final(self).remaining(),
                ) && final(self).remaining().len() < old(self).remaining().len(),
                None => old(self).remaining().len() == 0 && final(self).remaining() == old(
                    self,
                ).remaining(),
            },
    {
        let ghost orig = self.remaining();
        let start = self.cursor;
        if start >= self.indices.len() {
            proof {
                assert(orig =~= Seq::<i32>::empty());
            }
            return None;
        }
        let mut face_indices: Vec<i32> = Vec::new();
        while self.cursor < self.indices.len() && self.indices[self.cursor] >= 0
            invariant
                self.indices == old(self).indices,
                start <= self.cursor <= self.indices@.len(),
                face_indices@ == self.indices@.subrange(start as int, self.cursor as int),
                forall|j: int| start <= j < self.cursor ==> #[trigger] self.indices@[j] >= 0,
            decreases self.indices@.len() - self.cursor,
        {
            let v = self.indices[self.cursor];
            face_indices.push(v);
            self.cursor = self.cursor + 1;
            proof {
                assert(face_indices@ =~= self.indices@.subrange(
                    start as int,
                    self.cursor as int,
                ));
            }
        }
        let k = self.cursor;
        proof {
            assert(forall|j: int|
                0 <= j < k - start ==> #[trigger] orig[j] == self.indices@[start + j]);
            lemma_first_neg_is(orig, k - start);
        }
        if k < self.indices.len() {
            let v = self.indices[k];
            // The negative terminator carries the face's true final index as
            // its bitwise complement.
            face_indices.push(-1 - v);
            self.cursor = k + 1;
            proof {
                assert(orig.take(k - start) =~= self.indices@.subrange(start as int, k as int));
                assert(orig[k - start] == v);
                assert(face_indices@ =~= orig.take(k - start).push(complement(orig[k - start])));
                assert(self.remaining() =~= orig.skip(k - start + 1));
                assert(spec_faces(orig) == seq![face_indices@] + spec_faces(self.remaining()));
            }
            Some(Face::new(face_indices))
        } else {
            proof {
                assert(face_indices@ =~= orig);
                assert(self.remaining() =~= Seq::<i32>::empty());
                assert(spec_faces(self.remaining()) =~= Seq::<Seq<i32>>::empty());
                assert(seq![orig] + Seq::<Seq<i32>>::empty() =~= seq![orig]);
                assert(spec_faces(orig) == seq![face_indices@] + spec_faces(self.remaining()));
            }
            Some(Face::new(face_indices))
        }
    }
}

// ---------------------------------------------------------------------------
// Extracting meshes from `Geometry` records.
// ---------------------------------------------------------------------------

/// The faces a geometry record yields: the polygon loops of the signed
/// 32-bit index array in the first property of its `PolygonVertexIndex`
/// child, which must be present and carry that array.
pub open spec fn spec_get_faces(g: NodeView) -> Result<Seq<Seq<i32>>, ParseErrorKind> {
    let ps = positions_of(g.children, "PolygonVertexIndex"@);
    if ps.len() == 0 {
        Err(ParseErrorKind::Validation)
    } else {
        let n = g.children[ps[0]];
        if n.properties.len() < 1 {
            Err(ParseErrorKind::Validation)
        } else {
            match n.properties[0] {
                PropertyView::SignedInt32Array(idx) => Ok(spec_faces(idx)),
                _ => Err(ParseErrorKind::Validation),
            }
        }
    }
}

/// Indexes the direct children of a record by name.
fn collect_children<'a>(node: &'a NodeRecord) -> (r: NodeCollection<'a>)
    ensures
        r.wf(),
        r@ == node@.children,
{
    let mut children: NodeCollection<'a> = NodeCollection::new();
    let mut i: usize = 0;
    while i < node.nested_list.len()
        invariant
            i <= node.nested_list@.len(),
            children.wf(),
            children@ == node@.children.take(i as int),
        decreases node.nested_list@.len() - i,
    {
        let ghost prev = children@;
        children.insert(&node.nested_list[i]);
        i = i + 1;
        proof {
            assert(children@ =~= node@.children.take(i as int));
        }
    }
    proof {
        assert(children@ =~= node@.children);
    }
    children
}

/// Decodes the polygon faces of one geometry record.
pub fn get_faces(geometry: &NodeRecord) -> (r: Result<Vec<Face>, ParseError>)
    ensures
        match r {
            Ok(f) => spec_get_faces(geometry@) == Ok::<_, ParseErrorKind>(faces_view(f@)),
            Err(e) => spec_get_faces(geometry@) == Err::<Seq<Seq<i32>>, _>(e.kind()),
        },
{
    let children = collect_children(geometry);
    let indices_node = match children.get("PolygonVertexIndex") {
        Ok(v) => v,
        Err(_) => {
            return Err(
                ParseError::ValidationError("no PolygonVertexIndex node found".to_owned()),
            )
        },
    };
    if indices_node.properties.len() < 1 {
        return Err(ParseError::ValidationError("Unexpected data in indices node".to_owned()));
    }
    let indices: &Vec<i32> = match &indices_node.properties[0] {
        PropertyRecordType::SignedInt32Array(v) => v,
        _ => {
            return Err(
                ParseError::ValidationError("Unexpected data in indices node".to_owned()),
            )
        },
    };
    let mut faces: Vec<Face> = Vec::new();
    let mut iterator = FaceIterator::from(indices);
    let mut done = false;
    while !done
        invariant
            spec_faces(indices@) == faces_view(faces@) + spec_faces(iterator.remaining()),
            done ==> iterator.remaining().len() == 0,
        decreases iterator.remaining().len() + (if done {
            0int
        } else {
            1int
        }),
    {
        let ghost prev_faces = faces@;
        let ghost prev_remaining = iterator.remaining();
        match iterator.next() {
            Some(face) => {
                proof {
                    assert(faces_view(prev_faces.push(face)) =~= faces_view(prev_faces) + seq![
                        face@,
                    ]);
                    assert((faces_view(prev_faces) + seq![face@]) + spec_faces(
                        iterator.remaining(),
                    ) =~= faces_view(prev_faces) + (seq![face@] + spec_faces(
                        iterator.remaining(),
                    )));
                }
                faces.push(face);
            },
            None => {
                done = true;
            },
        }
    }
    proof {
        assert(spec_faces(iterator.remaining()) =~= Seq::<Seq<i32>>::empty());
        assert(faces_view(faces@) + Seq::<Seq<i32>>::empty() =~= faces_view(faces@));
    }
    Ok(faces)
}

/// Groups a coordinate array into consecutive XYZ triples; coordinates
/// left over after the last full triple are dropped.
pub open spec fn spec_triples(coords: Seq<u64>) -> Seq<Point3> {
    Seq::new(
        (coords.len() / 3) as nat,
        |i: int| Point3 { x: coords[3 * i], y: coords[3 * i + 1], z: coords[3 * i + 2] },
    )
}

/// Groups a coordinate array into consecutive XYZ triples.
pub fn tuples3(coords: &Vec<u64>) -> (r: Vec<Point3>)
    ensures
        r@ == spec_triples(coords@),
{
    let count = coords.len() / 3;
    let mut out: Vec<Point3> = Vec::new();
    let mut i: usize = 0;
    while i < count
        invariant
            coords@.len() <= usize::MAX,
            count == coords@.len() as int / 3,
            i <= count,
            out@.len() == i,
            forall|j: int|
                0 <= j < i ==> #[trigger] out@[j] == (Point3 {
                    x: coords@[3 * j],
                    y: coords@[3 * j + 1],
                    z: coords@[3 * j + 2],
                }),
        decreases count - i,
    {
        out.push(
            Point3 { x: coords[3 * i], y: coords[3 * i + 1], z: coords[3 * i + 2] },
        );
        i = i + 1;
    }
    proof {
        assert(out@ =~= spec_triples(coords@));
    }
    out
}

/// The mesh a geometry record yields, if any: a record with fewer than
/// three properties, or whose third property is not the string `"Mesh"`,
/// is skipped silently; its name is its second property; its `Vertices`
/// child must carry a 64-bit float array, grouped into XYZ triples; its
/// `PolygonVertexIndex` child must carry the face index array.
pub open spec fn spec_mesh_of_geometry(g: NodeView) -> Result<Option<MeshView>, ParseErrorKind> {
    if g.properties.len() < 3 {
        Ok(None)
    } else {
        match g.properties[1] {
            PropertyView::String(name) => match g.properties[2] {
                PropertyView::String(object_type) => {
                    if object_type != "Mesh"@ {
                        Ok(None)
                    } else {
                        let vs = positions_of(g.children, "Vertices"@);
                        if vs.len() == 0 {
                            Err(ParseErrorKind::Validation)
                        } else {
                            let vn = g.children[vs[0]];
                            if vn.properties.len() < 1 {
                                Err(ParseErrorKind::Validation)
                            } else {
                                match vn.properties[0] {
                                    PropertyView::DoubleArray(coords) => {
                                        match spec_get_faces(g) {
                                            Err(e) => Err(e),
                                            Ok(faces) => Ok(
                                                Some(
                                                    MeshView {
                                                        name,
                                                        vertices: spec_triples(coords),
                                                        faces,
                                                    },
                                                ),
                                            ),
                                        }
                                    },
                                    _ => Err(ParseErrorKind::Validation),
                                }
                            }
                        }
                    }
                },
                _ => Ok(None),
            },
            _ => Err(ParseErrorKind::Validation),
        }
    }
}

/// Extracts the mesh of one geometry record, or skips it silently when it
/// is not a supported mesh geometry.
fn mesh_of_geometry(geom: &NodeRecord) -> (r: Result<Option<Mesh>, ParseError>)
    ensures
        match r {
            Ok(Some(m)) => spec_mesh_of_geometry(geom@) == Ok::<_, ParseErrorKind>(Some(m@)),
            Ok(None) => spec_mesh_of_geometry(geom@) == Ok::<Option<MeshView>, ParseErrorKind>(
                None,
            ),
            Err(e) => spec_mesh_of_geometry(geom@) == Err::<Option<MeshView>, _>(e.kind()),
        },
{
    if geom.properties.len() < 3 {
        return Ok(None);
    }
    let name: String = match &geom.properties[1] {
        PropertyRecordType::String(s) => s.clone(),
        _ => {
            return Err(
                ParseError::ValidationError("geometry name is not a string".to_owned()),
            )
        },
    };
    let expected: String = "Mesh".to_owned();
    match &geom.properties[2] {
        PropertyRecordType::String(s) => {
            if !(*s == expected) {
                return Ok(None);
            }
        },
        _ => { return Ok(None) },
    }
    let children = collect_children(geom);
    let vertices_node = match children.get("Vertices") {
        Ok(v) => v,
        Err(_) => {
            return Err(ParseError::ValidationError("no Vertices node found".to_owned()))
        },
    };
    if vertices_node.properties.len() < 1 {
        return Err(ParseError::ValidationError("Unexpected data in vertex node".to_owned()));
    }
    let coordinates: &Vec<u64> = match &vertices_node.properties[0] {
        PropertyRecordType::DoubleArray(arr) => arr,
        _ => {
            return Err(
                ParseError::ValidationError("Unexpected data in vertex node".to_owned()),
            )
        },
    };
    let vertices = tuples3(coordinates);
    let faces = match get_faces(geom) {
        Ok(f) => f,
        Err(e) => { return Err(e) },
    };
    let mesh = Mesh::new(name, vertices, faces);
    Ok(Some(mesh))
}

// ---------------------------------------------------------------------------
// The scene importer.
// ---------------------------------------------------------------------------

/// The meshes of the geometry records at positions `gs[i..]` of
/// `children`, in order; skipped geometries contribute nothing, and the
/// first failure aborts the import.
pub open spec fn spec_meshes(children: Seq<NodeView>, gs: Seq<int>, i: int) -> Result<
    Seq<MeshView>,
    ParseErrorKind,
>
    decreases gs.len() - i,
{
    if i < 0 || i >= gs.len() {
        Ok(Seq::empty())
    } else {
        match spec_mesh_of_geometry(children[gs[i]]) {
            Err(e) => Err(e),
            Ok(None) => spec_meshes(children, gs, i + 1),
            Ok(Some(m)) => match spec_meshes(children, gs, i + 1) {
                Err(e) => Err(e),
                Ok(rest) => Ok(seq![m] + rest),
            },
        }
    }
}

/// The scene a root record list yields: the `Objects` record is required;
/// each of its `Geometry` children contributes its mesh, in order; no
/// `Geometry` children at all yields a scene with no meshes.
pub open spec fn spec_import(roots: Seq<NodeView>) -> Result<Seq<MeshView>, ParseErrorKind> {
    let os = positions_of(roots, "Objects"@);
    if os.len() == 0 {
        Err(ParseErrorKind::Validation)
    } else {
        let objects = roots[os[0]];
        let gs = positions_of(objects.children, "Geometry"@);
        if gs.len() == 0 {
            Ok(Seq::empty())
        } else {
            spec_meshes(objects.children, gs, 0)
        }
    }
}

/// A face ends exactly at the first negative index, whose bitwise
/// complement becomes the face's final vertex index; the faces after it
/// are those of the indices after the terminator.
pub proof fn lemma_face_terminator_complemented(idx: Seq<i32>, k: int)
    requires
        0 <= k < idx.len(),
        forall|j: int| 0 <= j < k ==> idx[j] >= 0,
        idx[k] < 0,
    ensures
        spec_faces(idx) == seq![idx.take(k).push(complement(idx[k]))] + spec_faces(
            idx.skip(k + 1),
        ),
        spec_faces(idx)[0] == idx.take(k).push(complement(idx[k])),
{
    lemma_first_neg_is(idx, k);
}

/// A root list whose `Objects` record has no `Geometry` children imports
/// successfully to a scene with no meshes: absent optional structure is
/// not a failure.
pub proof fn lemma_no_geometry_yields_empty_scene(roots: Seq<NodeView>)
    requires
        positions_of(roots, "Objects"@).len() > 0,
        positions_of(roots[positions_of(roots, "Objects"@)[0]].children, "Geometry"@).len() == 0,
    ensures
        spec_import(roots) == Ok::<Seq<MeshView>, ParseErrorKind>(Seq::empty()),
{
}

/// A root list without an `Objects` record fails the whole import:
/// absent required structure is fatal.
pub proof fn lemma_missing_objects_fails(roots: Seq<NodeView>)
    requires
        positions_of(roots, "Objects"@).len() == 0,
    ensures
        spec_import(roots) == Err::<Seq<MeshView>, _>(ParseErrorKind::Validation),
{
}

/// Builds the scene from the decoded root records: finds `Objects`,
/// walks its `Geometry` children in order, and collects their meshes.
#[verifier::loop_isolation(false)]
pub fn import(roots: &Vec<NodeRecord>) -> (r: Result<Scene, ParseError>)
    ensures
        match r {
            Ok(scene) => spec_import(nodes_view(roots@)) == Ok::<_, ParseErrorKind>(scene@),
            Err(e) => spec_import(nodes_view(roots@)) == Err::<Seq<MeshView>, _>(e.kind()),
        },
{
    let mut root_collection: NodeCollection = NodeCollection::new();
    let mut i: usize = 0;
    while i < roots.len()
        invariant
            i <= roots@.len(),
            root_collection.wf(),
            root_collection@ == nodes_view(roots@).take(i as int),
        decreases roots@.len() - i,
    {
        root_collection.insert(&roots[i]);
        i = i + 1;
        proof {
            assert(root_collection@ =~= nodes_view(roots@).take(i as int));
        }
    }
    proof {
        assert(root_collection@ =~= nodes_view(roots@));
    }
    let objects_node = match root_collection.get("Objects") {
        Ok(node) => node,
        Err(_) => {
            return Err(ParseError::ValidationError("no Objects node found".to_owned()))
        },
    };
    let objects_children = collect_children(objects_node);
    let geometry = match objects_children.get_multiple("Geometry") {
        Some(g) => g,
        None => {
            // No meshes to import: a scene with an empty mesh list.
            proof {
                assert(meshes_view(Seq::<Mesh>::empty()) =~= Seq::<MeshView>::empty());
                assert(spec_import(nodes_view(roots@)) == Ok::<_, ParseErrorKind>(Seq::<
                    MeshView,
                >::empty()));
            }
            return Ok(Scene::new(Vec::new()));
        },
    };
    let ghost cv = objects_node@.children;
    let ghost gs = positions_of(cv, "Geometry"@);
    let mut meshes: Vec<Mesh> = Vec::new();
    let mut j: usize = 0;
    while j < geometry.len()
        invariant
            j <= geometry@.len(),
            geometry@.len() == gs.len(),
            forall|t: int| 0 <= t < gs.len() ==> #[trigger] geometry@[t]@ == cv[gs[t]],
            spec_import(nodes_view(roots@)) == (
            match spec_meshes(cv, gs, j as int) {
                Ok(rest) => Ok::<_, ParseErrorKind>(meshes_view(meshes@) + rest),
                Err(e) => Err::<Seq<MeshView>, _>(e),
            }),
        decreases geometry@.len() - j,
    {
        let ghost prev_meshes = meshes@;
        match mesh_of_geometry(geometry[j]) {
            Ok(Some(m)) => {
                proof {
                    let sp = spec_meshes(cv, gs, j as int + 1);
                    match sp {
                        Ok(rest2) => {
                            assert(spec_meshes(cv, gs, j as int) == Ok::<_, ParseErrorKind>(
                                seq![m@] + rest2,
                            ));
                            assert(meshes_view(prev_meshes.push(m)) =~= meshes_view(prev_meshes)
                                + seq![m@]);
                            assert((meshes_view(prev_meshes) + seq![m@]) + rest2 =~= meshes_view(
                                prev_meshes,
                            ) + (seq![m@] + rest2));
                        },
                        Err(_) => {},
                    }
                }
                meshes.push(m);
            },
            Ok(None) => {
                proof {
                    assert(spec_meshes(cv, gs, j as int) == spec_meshes(cv, gs, j as int + 1));
                }
            },
            Err(e) => {
                proof {
                    assert(spec_meshes(cv, gs, j as int) == Err::<Seq<MeshView>, _>(e.kind()));
                }
                return Err(e);
            },
        }
        j = j + 1;
    }
    proof {
        assert(spec_meshes(cv, gs, gs.len() as int) == Ok::<_, ParseErrorKind>(Seq::<
            MeshView,
        >::empty()));
        assert(meshes_view(meshes@) + Seq::<MeshView>::empty() =~= meshes_view(meshes@));
    }
    Ok(Scene::new(meshes))
}

} // verus!
