use fbx_import::fbx::import_fbx;
use fbx_import::fbx::importer::{get_faces, FaceIterator};
use fbx_import::fbx::node::NodeRecord;
use fbx_import::fbx::node_collection::{Error, NodeCollection};
use fbx_import::fbx::property::PropertyRecordType;
use fbx_import::scene::mesh::face_vertex_iterator::FaceVertexIterator;
use fbx_import::scene::mesh::Point3;

fn fbx_file_header(version: u32) -> Vec<u8> {
    let mut v = Vec::new();
    v.extend_from_slice(b"Kaydara FBX Binary  \0");
    v.extend_from_slice(&[0u8, 0]);
    v.extend_from_slice(&version.to_le_bytes());
    v
}

fn fbx_node_header(end: u32, num_properties: u32, property_length: u32, name: &str) -> Vec<u8> {
    let mut v = Vec::new();
    v.extend_from_slice(&end.to_le_bytes());
    v.extend_from_slice(&num_properties.to_le_bytes());
    v.extend_from_slice(&property_length.to_le_bytes());
    v.push(name.len() as u8);
    v.extend_from_slice(name.as_bytes());
    v
}

fn fbx_leaf_node(start: usize, name: &str, num_properties: u32, props: &[u8]) -> Vec<u8> {
    let end = start + 13 + name.len() + props.len();
    let mut v = fbx_node_header(end as u32, num_properties, props.len() as u32, name);
    v.extend_from_slice(props);
    v
}

fn fbx_prop_i16(value: i16) -> Vec<u8> {
    let mut v = vec![b'Y'];
    v.extend_from_slice(&value.to_le_bytes());
    v
}

fn fbx_prop_string_bytes(text: &[u8]) -> Vec<u8> {
    let mut v = vec![b'S'];
    v.extend_from_slice(&(text.len() as u32).to_le_bytes());
    v.extend_from_slice(text);
    v
}

fn fbx_prop_f64_array(values: &[f64]) -> Vec<u8> {
    let mut v = vec![b'd'];
    v.extend_from_slice(&(values.len() as u32).to_le_bytes());
    v.extend_from_slice(&0u32.to_le_bytes());
    v.extend_from_slice(&0u32.to_le_bytes());
    for value in values {
        v.extend_from_slice(&value.to_le_bytes());
    }
    v
}

fn fbx_prop_i32_array(values: &[i32]) -> Vec<u8> {
    let mut v = vec![b'i'];
    v.extend_from_slice(&(values.len() as u32).to_le_bytes());
    v.extend_from_slice(&0u32.to_le_bytes());
    v.extend_from_slice(&0u32.to_le_bytes());
    for value in values {
        v.extend_from_slice(&value.to_le_bytes());
    }
    v
}

/// A whole file holding one mesh geometry, with the given name bytes,
/// vertex coordinates, and polygon indices.
fn fbx_file_with_mesh(name: &[u8], coordinates: &[f64], indices: &[i32]) -> Vec<u8> {
    let geo_props = {
        let mut v = Vec::new();
        v.extend_from_slice(&fbx_prop_i16(1));
        v.extend_from_slice(&fbx_prop_string_bytes(name));
        v.extend_from_slice(&fbx_prop_string_bytes(b"Mesh"));
        v
    };
    let objects_start = 27;
    let geometry_start = objects_start + 13 + "Objects".len();
    let geo_children_start = geometry_start + 13 + "Geometry".len() + geo_props.len();
    let vertices_node =
        fbx_leaf_node(geo_children_start, "Vertices", 1, &fbx_prop_f64_array(coordinates));
    let pvi_start = geo_children_start + vertices_node.len();
    let pvi_node =
        fbx_leaf_node(pvi_start, "PolygonVertexIndex", 1, &fbx_prop_i32_array(indices));
    let geometry_end = pvi_start + pvi_node.len() + 13;
    let objects_end = geometry_end + 13;

    let mut data = fbx_file_header(7400);
    data.extend_from_slice(&fbx_node_header(objects_end as u32, 0, 0, "Objects"));
    data.extend_from_slice(&fbx_node_header(
        geometry_end as u32,
        3,
        geo_props.len() as u32,
        "Geometry",
    ));
    data.extend_from_slice(&geo_props);
    data.extend_from_slice(&vertices_node);
    data.extend_from_slice(&pvi_node);
    data.extend_from_slice(&[0u8; 13]); // closes Geometry
    data.extend_from_slice(&[0u8; 13]); // closes Objects
    data.extend_from_slice(&[0u8; 4]); // top-level terminator
    data
}

fn leaf_record(name: &str, properties: Vec<PropertyRecordType>) -> NodeRecord {
    NodeRecord { name: name.to_string(), properties, nested_list: Vec::new() }
}

#[test]
fn import_full_file_yields_mesh_vertices_and_faces() {
    let data = fbx_file_with_mesh(
        b"testmesh\0\0Geometry",
        &[1.0, 2.0, 3.0, 4.0, 5.0, 6.0],
        &[0, 1, -3, 3, 4, -6],
    );

    let scene = import_fbx(&data).unwrap();

    assert_eq!(scene.meshes.len(), 1);
    let mesh = &scene.meshes[0];
    // The stored name is truncated at its first NUL byte.
    assert_eq!(mesh.name, "testmesh");
    assert_eq!(
        mesh.vertices,
        vec![
            Point3 { x: 1.0f64.to_bits(), y: 2.0f64.to_bits(), z: 3.0f64.to_bits() },
            Point3 { x: 4.0f64.to_bits(), y: 5.0f64.to_bits(), z: 6.0f64.to_bits() },
        ]
    );
    assert_eq!(mesh.faces.len(), 2);
    assert_eq!(mesh.faces[0].indices, vec![0, 1, 2]);
    assert_eq!(mesh.faces[1].indices, vec![3, 4, 5]);
}

#[test]
fn polygon_index_array_decodes_negative_terminators() {
    let indices = vec![0, 1, -3, 3, 4, -6];
    let mut faces = Vec::new();
    let mut iterator = FaceIterator::from(&indices);
    while let Some(face) = iterator.next() {
        faces.push(face);
    }

    assert_eq!(faces.len(), 2);
    assert_eq!(faces[0].indices, vec![0, 1, 2]);
    assert_eq!(faces[1].indices, vec![3, 4, 5]);
}

#[test]
fn trailing_indices_without_terminator_form_a_face() {
    let indices = vec![1, 2, 3];
    let mut iterator = FaceIterator::from(&indices);

    let face = iterator.next().unwrap();
    assert_eq!(face.indices, vec![1, 2, 3]);
    assert!(iterator.next().is_none());
}

#[test]
fn empty_index_array_yields_no_faces() {
    let indices: Vec<i32> = Vec::new();
    let mut iterator = FaceIterator::from(&indices);

    assert!(iterator.next().is_none());
}

#[test]
fn get_faces_reads_the_polygon_vertex_index_child() {
    let geometry = NodeRecord {
        name: "Geometry".to_string(),
        properties: Vec::new(),
        nested_list: vec![leaf_record(
            "PolygonVertexIndex",
            vec![PropertyRecordType::SignedInt32Array(vec![7, 8, -10])],
        )],
    };

    let faces = get_faces(&geometry).unwrap();

    assert_eq!(faces.len(), 1);
    assert_eq!(faces[0].indices, vec![7, 8, 9]);
}

#[test]
fn import_with_objects_but_no_geometry_succeeds_with_empty_scene() {
    let mut data = fbx_file_header(7400);
    let objects = fbx_leaf_node(27, "Objects", 0, &[]);
    data.extend_from_slice(&objects);
    data.extend_from_slice(&[0u8; 4]);

    let scene = import_fbx(&data).unwrap();

    assert_eq!(scene.meshes.len(), 0);
}

#[test]
fn import_without_objects_fails() {
    let mut data = fbx_file_header(7400);
    let other = fbx_leaf_node(27, "Other", 0, &[]);
    data.extend_from_slice(&other);
    data.extend_from_slice(&[0u8; 4]);

    assert!(import_fbx(&data).is_err());
}

#[test]
fn geometry_with_fewer_than_three_properties_is_skipped() {
    // Build the full file, then rewrite the Geometry record to have no
    // properties by reusing the builder with an empty property list.
    let objects_start = 27;
    let geometry_start = objects_start + 13 + "Objects".len();
    let geometry_node = fbx_leaf_node(geometry_start, "Geometry", 0, &[]);
    let objects_end = geometry_start + geometry_node.len() + 13;

    let mut data = fbx_file_header(7400);
    data.extend_from_slice(&fbx_node_header(objects_end as u32, 0, 0, "Objects"));
    data.extend_from_slice(&geometry_node);
    data.extend_from_slice(&[0u8; 13]);
    data.extend_from_slice(&[0u8; 4]);

    let scene = import_fbx(&data).unwrap();

    assert_eq!(scene.meshes.len(), 0);
}

#[test]
fn geometry_of_unsupported_subtype_is_skipped() {
    let data = fbx_file_with_mesh(b"curve", &[1.0, 2.0, 3.0], &[0, -1]);
    // Rewrite the third property from "Mesh" to another subtype of the
    // same length.
    let needle = b"Mesh";
    let position = data
        .windows(needle.len())
        .rposition(|w| w == needle)
        .expect("subtype marker not found");
    let mut altered = data.clone();
    altered[position..position + 4].copy_from_slice(b"Nurb");

    let scene = import_fbx(&altered).unwrap();

    assert_eq!(scene.meshes.len(), 0);
}

#[test]
fn node_collection_get_returns_first_inserted_record() {
    let first = leaf_record("Geometry", vec![PropertyRecordType::SignedInt16(1)]);
    let second = leaf_record("Geometry", vec![PropertyRecordType::SignedInt16(2)]);
    let mut collection = NodeCollection::new();
    collection.insert(&first);
    collection.insert(&second);

    let found = collection.get("Geometry").unwrap();

    assert_eq!(found.properties, vec![PropertyRecordType::SignedInt16(1)]);
}

#[test]
fn node_collection_get_multiple_returns_all_records_in_order() {
    let first = leaf_record("Geometry", vec![PropertyRecordType::SignedInt16(1)]);
    let second = leaf_record("Geometry", vec![PropertyRecordType::SignedInt16(2)]);
    let other = leaf_record("Model", Vec::new());
    let mut collection = NodeCollection::new();
    collection.insert(&first);
    collection.insert(&other);
    collection.insert(&second);

    let found = collection.get_multiple("Geometry").unwrap();

    assert_eq!(found.len(), 2);
    assert_eq!(found[0].properties, vec![PropertyRecordType::SignedInt16(1)]);
    assert_eq!(found[1].properties, vec![PropertyRecordType::SignedInt16(2)]);
}

#[test]
fn node_collection_reports_missing_names() {
    let record = leaf_record("Model", Vec::new());
    let mut collection = NodeCollection::new();
    collection.insert(&record);

    assert_eq!(collection.get("Objects").unwrap_err(), Error::NoSuchNode);
    assert!(collection.get_multiple("Objects").is_none());
}

#[test]
fn face_vertex_iterator_should_handle_empty_input() {
    let indices = Vec::<i32>::new();
    let vertices = Vec::<glm::Vec2>::new();

    let _ = FaceVertexIterator::from(&indices, &vertices);
}

#[test]
fn face_vertex_iterator_hands_out_vertices_in_index_order() {
    let indices = vec![1, 0];
    let vertices = vec![10i64, 20];
    let mut iterator = FaceVertexIterator::from(&indices, &vertices);

    assert_eq!(iterator.next(), Some(&20));
    assert_eq!(iterator.next(), Some(&10));
    assert_eq!(iterator.next(), None);
}
