use fbx_import::fbx::property::{
    apply_transform_on_byte_stream, get_property_raw_byte_cursor, parse_bool_property,
    parse_f32_property, parse_f64_property, parse_i16_property, parse_i32_array_property,
    parse_i32_property, parse_i64_property, parse_property, parse_string_property,
    PropertyRecordType,
};
use fbx_import::fbx::ParseError;

fn read_i32_at(data: &Vec<u8>, pos: usize) -> Result<(i32, usize), ParseError> {
    if pos + 4 <= data.len() {
        let mut bytes = [0u8; 4];
        bytes.copy_from_slice(&data[pos..pos + 4]);
        Ok((i32::from_le_bytes(bytes), pos + 4))
    } else {
        Err(ParseError::UnexpectedEndOfData)
    }
}

fn fill_array_metadata(data: &mut Vec<u8>, length: u32, encoding: u32, compressed_length: u32) {
    data.extend_from_slice(&length.to_le_bytes());
    data.extend_from_slice(&encoding.to_le_bytes());
    data.extend_from_slice(&compressed_length.to_le_bytes());
}

#[test]
fn parse_i16_property_should_read_2_bytes() {
    let input = vec![1u8, 2, 3, 4];

    let (_, position) = parse_i16_property(&input, 0).unwrap();

    assert_eq!(position, 2);
}

#[test]
fn parse_i16_property_should_return_correct_value() {
    let input = vec![1u8, 2];

    let (value, _) = parse_i16_property(&input, 0).unwrap();

    assert_eq!(value, PropertyRecordType::SignedInt16(513));
}

#[test]
fn parse_i16_property_should_return_error_if_not_enough_bytes() {
    let input = vec![1u8];

    let result = parse_i16_property(&input, 0);

    assert!(result.is_err());
}

#[test]
fn parse_i32_property_should_read_4_bytes() {
    let input = vec![1u8, 2, 3, 4, 5, 6, 7, 8];

    let (_, position) = parse_i32_property(&input, 0).unwrap();

    assert_eq!(position, 4);
}

#[test]
fn parse_i32_property_should_return_correct_value() {
    let input = vec![1u8, 2, 3, 4];

    let (value, _) = parse_i32_property(&input, 0).unwrap();

    assert_eq!(value, PropertyRecordType::SignedInt32(67305985));
}

#[test]
fn parse_i32_property_should_return_error_if_not_enough_bytes() {
    let input = vec![1u8, 2, 3];

    let result = parse_i32_property(&input, 0);

    assert!(result.is_err());
}

#[test]
fn parse_i64_property_should_read_8_bytes() {
    let input = vec![1u8, 2, 3, 4, 5, 6, 7, 8, 9, 10];

    let (_, position) = parse_i64_property(&input, 0).unwrap();

    assert_eq!(position, 8);
}

#[test]
fn parse_i64_property_should_return_correct_value() {
    let input = vec![1u8, 2, 3, 4, 5, 6, 7, 8];

    let (value, _) = parse_i64_property(&input, 0).unwrap();

    assert_eq!(value, PropertyRecordType::SignedInt64(578437695752307201));
}

#[test]
fn parse_i64_property_should_return_error_if_not_enough_bytes() {
    let input = vec![1u8, 2, 3, 4, 5, 6, 7];

    let result = parse_i64_property(&input, 0);

    assert!(result.is_err());
}

#[test]
fn parse_f32_property_should_read_4_bytes() {
    let input = vec![1u8, 2, 3, 4, 5, 6];

    let (_, position) = parse_f32_property(&input, 0).unwrap();

    assert_eq!(position, 4);
}

#[test]
fn parse_f32_property_should_return_correct_value() {
    let input = vec![10u8, 20, 30, 40];

    let (value, _) = parse_f32_property(&input, 0).unwrap();

    assert_eq!(
        value,
        PropertyRecordType::Float(0.00000000000000877510717f32.to_bits())
    );
}

#[test]
fn parse_f32_property_should_return_error_if_not_enough_bytes() {
    let input = vec![1u8, 2, 3];

    let result = parse_f32_property(&input, 0);

    assert!(result.is_err());
}

#[test]
fn parse_f64_property_should_read_8_bytes() {
    let input = vec![1u8, 2, 3, 4, 5, 6, 7, 8, 9, 10];

    let (_, position) = parse_f64_property(&input, 0).unwrap();

    assert_eq!(position, 8);
}

#[test]
fn parse_f64_property_should_return_correct_value() {
    let input = vec![10u8, 20, 30, 40, 50, 60, 70, 80];

    let (value, _) = parse_f32_property(&input, 0).unwrap();

    assert_eq!(
        value,
        PropertyRecordType::Float(0.00000000000000877510717f32.to_bits())
    );
}

#[test]
fn parse_f64_property_should_return_error_if_not_enough_bytes() {
    let input = vec![1u8, 2, 3, 4, 5, 6, 7];

    let result = parse_f64_property(&input, 0);

    assert!(result.is_err());
}

#[test]
fn parse_bool_property_should_read_1_byte() {
    let input = vec![1u8, 0];

    let (_, position) = parse_bool_property(&input, 0).unwrap();

    assert_eq!(position, 1);
}

#[test]
fn parse_bool_property_should_return_true_if_byte_is_1() {
    let input = vec![1u8];

    let (value, _) = parse_bool_property(&input, 0).unwrap();

    assert_eq!(value, PropertyRecordType::Boolean(true));
}

#[test]
fn parse_bool_property_should_return_true_if_byte_is_0() {
    let input = vec![0u8];

    let (value, _) = parse_bool_property(&input, 0).unwrap();

    assert_eq!(value, PropertyRecordType::Boolean(false));
}

#[test]
fn parse_bool_property_should_return_error_if_not_enough_bytes() {
    let input = Vec::new();

    let result = parse_f64_property(&input, 0);

    assert!(result.is_err());
}

#[test]
fn get_property_raw_byte_cursor_should_handle_uncompressed_data() {
    // Arrange
    let payload = vec![1u8, 2u8, 3u8, 4u8, 3u8, 2u8, 1u8, 0u8];
    let mut data = Vec::new();
    fill_array_metadata(&mut data, 2, 0, 0);
    data.extend_from_slice(&payload);

    // Act
    let result = get_property_raw_byte_cursor(&data, 0, 4);

    // Assert
    assert!(result.is_ok());
    assert_eq!(result.unwrap().0, payload);
}

#[test]
fn get_property_raw_byte_cursor_should_handle_compressed_data() {
    // Arrange
    // these are signed 32-bit values 0 1 2 deflated.
    let payload = vec![120, 156, 99, 0, 2, 70, 32, 102, 2, 98, 0, 0, 28, 0, 4];
    let mut data = Vec::new();
    fill_array_metadata(&mut data, 0, 1, payload.len() as u32);
    data.extend_from_slice(&payload);

    // Act
    let result = get_property_raw_byte_cursor(&data, 0, 4);

    // Assert
    assert!(result.is_ok());
    assert_eq!(result.unwrap().0, vec![0, 0, 0, 0, 1, 0, 0, 0, 2, 0, 0, 0]);
}

#[test]
fn get_property_raw_byte_cursor_should_return_error_if_not_enough_bytes() {
    // Arrange
    let mut data = Vec::new();
    fill_array_metadata(&mut data, 1, 0, 0);

    // Act
    let result = get_property_raw_byte_cursor(&data, 0, 4);

    // Assert
    assert!(result.is_err());
}

#[test]
fn apply_transform_on_byte_stream_should_apply_transform() {
    // Arrange
    let data = vec![9, 0, 0, 0, 4, 0, 0, 0, 7, 1, 0, 0];

    // Act
    let result = apply_transform_on_byte_stream(&data, 0, 4, |d: &Vec<u8>, p: usize| {
        let (v, p2) = read_i32_at(d, p)?;
        Ok((v + 1, p2))
    });

    // Assert
    assert!(result.is_ok());
    assert_eq!(result.unwrap().0, vec![10i32, 5, 264]);
}

#[test]
fn apply_transform_on_byte_stream_should_handle_empty_input() {
    // Arrange
    let data = Vec::<u8>::new();

    // Act
    let result = apply_transform_on_byte_stream(&data, 0, 4, |d: &Vec<u8>, p: usize| {
        let (v, p2) = read_i32_at(d, p)?;
        Ok((v + 1, p2))
    });

    // Assert
    assert!(result.is_ok());
    assert_eq!(result.unwrap().0.len(), 0);
}

#[test]
fn apply_transform_on_byte_stream_should_handle_incomplete_stream() {
    // Arrange
    // data only contains enough bytes for ONE i32, leaving 3 bytes
    let data = vec![9, 0, 0, 0, 8, 0, 0];

    // Act
    let result = apply_transform_on_byte_stream(&data, 0, 4, read_i32_at);

    // Assert
    assert!(result.is_ok());
    let (values, position) = result.unwrap();
    assert_eq!(values.len(), 1);
    assert_eq!(values[0], 9);
    assert_eq!(position, 4);
}

#[test]
fn parse_i32_array_property_should_handle_uncompressed_data() {
    // Arrange
    let mut data = Vec::new();
    fill_array_metadata(&mut data, 5, 0, 0);
    for i in 0..5i32 {
        data.extend_from_slice(&i.to_le_bytes());
    }

    // Act
    let result = parse_i32_array_property(&data, 0);

    // Assert
    assert!(result.is_ok());
    assert_eq!(
        result.unwrap().0,
        PropertyRecordType::SignedInt32Array(vec![0, 1, 2, 3, 4])
    );
}

#[test]
fn compressed_and_raw_i32_arrays_decode_to_equal_values() {
    // The same values 0, 1, 2 stored raw and zlib-deflated.
    let mut raw = Vec::new();
    fill_array_metadata(&mut raw, 3, 0, 0);
    for i in 0..3i32 {
        raw.extend_from_slice(&i.to_le_bytes());
    }

    let deflated = vec![120u8, 156, 99, 0, 2, 70, 32, 102, 2, 98, 0, 0, 28, 0, 4];
    let mut compressed = Vec::new();
    fill_array_metadata(&mut compressed, 3, 1, deflated.len() as u32);
    compressed.extend_from_slice(&deflated);

    let (raw_value, _) = parse_i32_array_property(&raw, 0).unwrap();
    let (compressed_value, _) = parse_i32_array_property(&compressed, 0).unwrap();

    assert_eq!(raw_value, PropertyRecordType::SignedInt32Array(vec![0, 1, 2]));
    assert_eq!(raw_value, compressed_value);
}

#[test]
fn compressed_array_element_count_comes_from_inflated_length() {
    // The declared length field lies (100); the inflated byte length (12
    // bytes, three 32-bit values) decides the element count.
    let deflated = vec![120u8, 156, 99, 0, 2, 70, 32, 102, 2, 98, 0, 0, 28, 0, 4];
    let mut data = Vec::new();
    fill_array_metadata(&mut data, 100, 1, deflated.len() as u32);
    data.extend_from_slice(&deflated);

    let (value, _) = parse_i32_array_property(&data, 0).unwrap();

    assert_eq!(value, PropertyRecordType::SignedInt32Array(vec![0, 1, 2]));
}

#[test]
fn parse_bool_array_property_reads_one_byte_per_element() {
    let mut data = Vec::new();
    fill_array_metadata(&mut data, 3, 0, 0);
    data.extend_from_slice(&[1u8, 0, 1]);

    let (value, position) = fbx_import::fbx::property::parse_bool_array_property(&data, 0).unwrap();

    assert_eq!(value, PropertyRecordType::BooleanArray(vec![true, false, true]));
    assert_eq!(position, 15);
}

#[test]
fn string_property_is_truncated_at_first_nul() {
    let text = b"Model\0\0Mesh";
    let mut data = Vec::new();
    data.extend_from_slice(&(text.len() as u32).to_le_bytes());
    data.extend_from_slice(text);

    let (value, position) = parse_string_property(&data, 0).unwrap();

    assert_eq!(value, PropertyRecordType::String("Model".to_string()));
    assert_eq!(position, 4 + text.len());
}

#[test]
fn unknown_property_tag_is_a_format_error() {
    let data = vec![b'X', 0, 0, 0];

    let result = parse_property(&data, 0);

    assert!(matches!(result, Err(ParseError::FormatError)));
}

#[test]
fn corrupt_zlib_data_is_a_format_error() {
    let mut data = Vec::new();
    fill_array_metadata(&mut data, 3, 1, 4);
    data.extend_from_slice(&[1u8, 2, 3, 4]);

    let result = parse_i32_array_property(&data, 0);

    assert!(matches!(result, Err(ParseError::FormatError)));
}
