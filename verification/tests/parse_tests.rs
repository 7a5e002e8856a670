use mat5::parse::{parse_mat_bytes, read_array_flags, read_array_name, read_dimensions, ParseError};
use mat5::{write_default_header, Container, F64Bits, NdArray};
use std::io::Write;

fn file_with(array: &NdArray<u32>, name: &'static str) -> Vec<u8> {
    let mut buffer = Vec::new();
    write_default_header(&mut buffer);
    array.write_container(&mut buffer, name);
    buffer
}

#[test]
fn parse_reads_back_a_written_matrix() {
    let array = NdArray::from_shape_vec(vec![2, 3], vec![1u32, 2, 3, 4, 5, 6]).unwrap();
    let bytes = file_with(&array, "a12345678");
    let contents = parse_mat_bytes(&bytes).unwrap();
    assert_eq!(contents.header.header_string.trim_end(), "default text header");
    assert_eq!(contents.header.endian_marker, "IM");
    assert_eq!(contents.header.sys_offset_1, 0);
    assert_eq!(contents.data_type.dtype_integer, 14);
    assert_eq!(contents.data_type.dtype_length as usize, bytes.len() - 136);
    assert!(contents.decompressed_data_type.is_none());
    assert_eq!(contents.array_flags.array_flag_type, 6);
    assert_eq!(contents.array_flags.array_flag_length, 8);
    assert_eq!(contents.array_flags.flag_1, 13);
    assert_eq!(contents.dimensions.dimension_sizes, vec![2, 3]);
    assert_eq!(contents.dimensions.padding_bytes, 0);
    assert_eq!(contents.array_name.name, "a12345678");
    assert_eq!(contents.array_name.padding_bytes, 7);
    assert_eq!(contents.array_data.array_type, 6);
    assert_eq!(contents.array_data.array_length, 24);
    let values: Vec<u32> = contents
        .array_data
        .array_data_bytes
        .chunks(4)
        .map(|c| u32::from_le_bytes([c[0], c[1], c[2], c[3]]))
        .collect();
    assert_eq!(values, vec![1, 4, 2, 5, 3, 6]);
}

#[test]
fn parse_reads_compressed_matrix() {
    let array = NdArray::from_shape_vec(vec![2, 2], vec![1.0f64, 2.0, 3.0, 4.0].iter().map(|x| F64Bits(x.to_bits())).collect()).unwrap();
    let mut element = Vec::new();
    array.write_container(&mut element, "mat");
    let mut encoder = flate2::write::ZlibEncoder::new(Vec::new(), flate2::Compression::default());
    encoder.write_all(&element).unwrap();
    let compressed = encoder.finish().unwrap();
    let mut bytes = Vec::new();
    write_default_header(&mut bytes);
    bytes.extend_from_slice(&15u32.to_le_bytes());
    bytes.extend_from_slice(&(compressed.len() as u32).to_le_bytes());
    bytes.extend_from_slice(&compressed);
    let contents = parse_mat_bytes(&bytes).unwrap();
    assert_eq!(contents.data_type.dtype_integer, 15);
    let inner = contents.decompressed_data_type.unwrap();
    assert_eq!(inner.dtype_integer, 14);
    assert_eq!(inner.dtype_length as usize, element.len() - 8);
    assert_eq!(contents.array_name.name, "mat");
    assert_eq!(contents.dimensions.dimension_sizes, vec![2, 2]);
    let values: Vec<f64> = contents
        .array_data
        .array_data_bytes
        .chunks(8)
        .map(|c| f64::from_le_bytes(c.try_into().unwrap()))
        .collect();
    assert_eq!(values, vec![1.0, 3.0, 2.0, 4.0]);
}

#[test]
fn parse_errors() {
    // too short for a header
    assert_eq!(parse_mat_bytes(&[0u8; 100]).err(), Some(ParseError::Incomplete));
    // header only
    let mut header = Vec::new();
    write_default_header(&mut header);
    assert_eq!(parse_mat_bytes(&header).err(), Some(ParseError::Incomplete));
    // header text that is not UTF-8
    let mut bad = header.clone();
    bad[0] = 0xff;
    assert_eq!(parse_mat_bytes(&bad).err(), Some(ParseError::InvalidUtf8));
    // a compressed element that is not zlib data
    let mut corrupt = header.clone();
    corrupt.extend_from_slice(&[15, 0, 0, 0, 4, 0, 0, 0, 1, 2, 3, 4]);
    assert_eq!(parse_mat_bytes(&corrupt).err(), Some(ParseError::Decompression));
    // a matrix cut short
    let array = NdArray::from_shape_vec(vec![1], vec![7u32]).unwrap();
    let full = file_with(&array, "x");
    assert!(parse_mat_bytes(&full).is_ok());
    let cut = &full[..full.len() - 1];
    assert_eq!(parse_mat_bytes(cut).err(), Some(ParseError::Incomplete));
}

#[test]
fn read_dimensions_reads_each_i32() {
    let bytes = [5, 0, 0, 0, 12, 0, 0, 0, 2, 0, 0, 0, 0xff, 0xff, 0xff, 0xff, 9, 0, 0, 0, 0, 0, 0, 0, 42];
    let (rest, dims) = read_dimensions(&bytes).unwrap();
    assert_eq!(dims.dimension_sizes, vec![2, -1, 9]);
    assert_eq!(dims.dimension_length, 12);
    assert_eq!(dims.padding_bytes, 4);
    assert_eq!(rest, &[42]);
    assert_eq!(read_dimensions(&bytes[..20]).err(), Some(ParseError::Incomplete));
}

#[test]
fn read_array_name_requires_utf8() {
    let bytes = [1, 0, 0, 0, 2, 0, 0, 0, 0xc3, 0x28, 0, 0, 0, 0, 0, 0];
    assert_eq!(read_array_name(&bytes).err(), Some(ParseError::InvalidUtf8));
    let good = [1, 0, 0, 0, 2, 0, 0, 0, b'o', b'k', 0, 0, 0, 0, 0, 0];
    let (rest, name) = read_array_name(&good).unwrap();
    assert_eq!(name.name, "ok");
    assert!(rest.is_empty());
}

#[test]
fn array_flags_read_back() {
    let array = NdArray::from_shape_vec(vec![3], vec![1i16, 2, 3]).unwrap();
    let mut bytes = Vec::new();
    array.write_container(&mut bytes, "flags");
    let (rest, flags) = read_array_flags(&bytes[8..]).unwrap();
    assert_eq!(rest, &bytes[24..]);
    assert_eq!(flags.array_flag_type, 6);
    assert_eq!(flags.array_flag_length, 8);
    assert_eq!(flags.flag_1, 10);
    assert_eq!(flags.flag_2, 0);
}

#[test]
fn derived_vector() {
    // the file that `#[derive(MatFile)] struct Vector { a: Vec<f64> }` writes
    let a: Vec<F64Bits> = vec![1., 2., 3., 4.].iter().map(|x: &f64| F64Bits(x.to_bits())).collect();
    let mut bytes = Vec::new();
    write_default_header(&mut bytes);
    a.write_container(&mut bytes, "a");
    let check_file = mat5::check_file_creator("derived_vector", &["a"], false);
    assert_eq!(check_file, "load(\"./tests/derived_vector.mat\")\na");
    let contents = parse_mat_bytes(&bytes).unwrap();
    assert_eq!(contents.data_type.dtype_integer, 14);
    assert_eq!(contents.array_name.name, "a");
    assert_eq!(contents.dimensions.dimension_sizes, vec![4]);
    assert_eq!(contents.array_flags.flag_1, 6);
    assert_eq!(contents.array_data.array_type, 9);
    let values: Vec<f64> = contents
        .array_data
        .array_data_bytes
        .chunks(8)
        .map(|c| f64::from_le_bytes(c.try_into().unwrap()))
        .collect();
    assert_eq!(values, vec![1., 2., 3., 4.]);
}

#[test]
fn dimensions_element_read_back() {
    let mut bytes = Vec::new();
    mat5::utils::write_matrix_dimensions(&mut bytes, &[3, 5, 7]);
    bytes.extend_from_slice(&[9, 9]);
    let (rest, dims) = read_dimensions(&bytes).unwrap();
    assert_eq!(rest, &[9, 9]);
    assert_eq!(dims.dimension_type, 5);
    assert_eq!(dims.dimension_length, 12);
    assert_eq!(dims.dimension_sizes, vec![3, 5, 7]);
    assert_eq!(dims.padding_bytes, 4);
}

#[test]
fn name_element_read_back() {
    let mut bytes = Vec::new();
    mat5::utils::write_array_name(&mut bytes, "naïve");
    bytes.extend_from_slice(&[1, 2, 3]);
    let (rest, name) = read_array_name(&bytes).unwrap();
    assert_eq!(rest, &[1, 2, 3]);
    assert_eq!(name.name, "naïve");
    assert_eq!(name.name_type, 1);
    assert_eq!(name.name_length, 6);
    assert_eq!(name.padding_bytes, 2);
}
