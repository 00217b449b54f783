use fbx_import::fbx::header::parse_header;
use fbx_import::fbx::node::{parse_node, parse_nodes};
use fbx_import::fbx::ParseError;

fn file_header(version: u32) -> Vec<u8> {
    let mut v = Vec::new();
    v.extend_from_slice(b"Kaydara FBX Binary  \0");
    v.extend_from_slice(&[0u8, 0]);
    v.extend_from_slice(&version.to_le_bytes());
    v
}

fn node_header(end: u32, num_properties: u32, property_length: u32, name: &str) -> Vec<u8> {
    let mut v = Vec::new();
    v.extend_from_slice(&end.to_le_bytes());
    v.extend_from_slice(&num_properties.to_le_bytes());
    v.extend_from_slice(&property_length.to_le_bytes());
    v.push(name.len() as u8);
    v.extend_from_slice(name.as_bytes());
    v
}

fn leaf_node(start: usize, name: &str, num_properties: u32, props: &[u8]) -> Vec<u8> {
    let end = start + 13 + name.len() + props.len();
    let mut v = node_header(end as u32, num_properties, props.len() as u32, name);
    v.extend_from_slice(props);
    v
}

fn prop_i16(value: i16) -> Vec<u8> {
    let mut v = vec![b'Y'];
    v.extend_from_slice(&value.to_le_bytes());
    v
}

#[test]
fn header_parses_magic_and_returns_declared_version() {
    let data = file_header(7400);

    let header = parse_header(&data).unwrap();

    assert_eq!(header.version(), 7400);
}

#[test]
fn header_rejects_every_single_altered_magic_byte() {
    let good = file_header(7400);
    for i in 0..21 {
        let mut data = good.clone();
        data[i] ^= 0x01;
        assert!(parse_header(&data).is_err(), "altered byte {} was accepted", i);
    }
}

#[test]
fn header_rejects_truncated_input() {
    let data = file_header(7400);

    assert!(matches!(parse_header(&data[..20].to_vec()), Err(ParseError::UnexpectedEndOfData)));
    assert!(matches!(parse_header(&data[..25].to_vec()), Err(ParseError::UnexpectedEndOfData)));
}

#[test]
fn parse_node_position_equals_declared_end_offset() {
    let props = prop_i16(7);
    let mut data = leaf_node(0, "Test", 1, &props);
    let declared_end = data.len();
    data.extend_from_slice(&[0u8; 4]);

    let (node, position) = parse_node(&data, 0).unwrap();

    assert!(node.is_some());
    assert_eq!(position, declared_end);
}

#[test]
fn node_with_wrong_property_byte_length_is_rejected() {
    // The single property takes 3 bytes; both a shortened and a
    // lengthened declared property length must be rejected.
    for declared in [2u32, 4u32] {
        let props = prop_i16(7);
        let end = 13 + 4 + props.len() + 8;
        let mut data = node_header(end as u32, 1, declared, "Test");
        data.extend_from_slice(&props);
        data.extend_from_slice(&[0u8; 16]);

        let result = parse_node(&data, 0);

        assert!(matches!(result, Err(ParseError::ValidationError(_))));
    }
}

#[test]
fn node_with_nonzero_sentinel_byte_is_rejected() {
    // A parent with one child; its sentinel block spans the 13 bytes
    // before its end offset.
    let child = leaf_node(14, "C", 0, &[]);
    let parent_end = 14 + child.len() + 13;
    let mut data = node_header(parent_end as u32, 0, 0, "P");
    data.extend_from_slice(&child);
    data.extend_from_slice(&[0u8; 13]);
    data.extend_from_slice(&[0u8; 4]);

    assert!(parse_node(&data, 0).is_ok());

    let sentinel_start = parent_end - 13;
    for k in 0..13 {
        let mut corrupt = data.clone();
        corrupt[sentinel_start + k] = 1;
        let result = parse_node(&corrupt, 0);
        assert!(
            matches!(result, Err(ParseError::ValidationError(_))),
            "non-zero sentinel byte {} was accepted",
            k
        );
    }
}

#[test]
fn node_end_offset_outside_input_is_rejected() {
    let mut data = leaf_node(0, "Test", 0, &[]);
    let huge: u32 = 1000;
    data[0..4].copy_from_slice(&huge.to_le_bytes());

    let result = parse_node(&data, 0);

    assert!(matches!(result, Err(ParseError::ValidationError(_))));
}

#[test]
fn terminator_yields_no_record() {
    let data = vec![0u8, 0, 0, 0];

    let (node, position) = parse_node(&data, 0).unwrap();

    assert!(node.is_none());
    assert_eq!(position, 4);
}

#[test]
fn node_name_with_invalid_utf8_is_a_format_error() {
    let mut data = Vec::new();
    let end: u32 = 64;
    data.extend_from_slice(&end.to_le_bytes());
    data.extend_from_slice(&0u32.to_le_bytes());
    data.extend_from_slice(&0u32.to_le_bytes());
    data.push(1);
    data.push(0xFF);
    data.extend_from_slice(&[0u8; 60]);

    let result = parse_node(&data, 0);

    assert!(matches!(result, Err(ParseError::FormatError)));
}

#[test]
fn parse_nodes_collects_root_siblings_in_order() {
    let first = leaf_node(0, "A", 0, &[]);
    let second = leaf_node(first.len(), "B", 0, &[]);
    let mut data = Vec::new();
    data.extend_from_slice(&first);
    data.extend_from_slice(&second);
    data.extend_from_slice(&[0u8; 4]);

    let (nodes, _) = parse_nodes(&data, 0).unwrap();

    assert_eq!(nodes.len(), 2);
    assert_eq!(nodes[0].name, "A");
    assert_eq!(nodes[1].name, "B");
}

#[test]
fn parse_nodes_stops_at_terminator() {
    let first = leaf_node(0, "A", 0, &[]);
    let mut data = Vec::new();
    data.extend_from_slice(&first);
    data.extend_from_slice(&[0u8; 4]);
    // A record after the terminator is not read.
    let stray = leaf_node(data.len(), "B", 0, &[]);
    data.extend_from_slice(&stray);

    let (nodes, _) = parse_nodes(&data, 0).unwrap();

    assert_eq!(nodes.len(), 1);
    assert_eq!(nodes[0].name, "A");
}

#[test]
fn truncated_node_input_is_an_end_of_data_error() {
    let data = vec![10u8, 0, 0];

    let result = parse_node(&data, 0);

    assert!(matches!(result, Err(ParseError::UnexpectedEndOfData)));
}
