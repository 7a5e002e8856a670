use mat5::container::checked_matrix_byte_count;
use mat5::{Container, F32Bits, F64Bits, NdArray, Num, ShapeError, WriteMatrix};

fn zeros<T: Num + Clone>(shape: Vec<usize>, zero: T) -> NdArray<T> {
    let n: usize = shape.iter().product();
    NdArray::from_shape_vec(shape, vec![zero; n]).unwrap()
}

#[test]
// check that the calculation for the number of bytes that a matrix
// will consume when writing to the buffer is correct.
//
// 128 bytes is pulled from figure 1-7 in the specification. Since
// we are not writing complex data, we remove the last 5 rows
// of bytes from the overal value (5*8)
fn array_number_bytes_u64() {
    let array = zeros(vec![2, 2], 0u64);

    let array_bytes = 128 - (8 * 5);
    array.byte_count("my_array", 2);
    assert_eq!(array_bytes, array.byte_count("my_array", 2));
}

#[test]
fn array_number_bytes_u32() {
    let array = zeros(vec![2, 2], 0u32);

    let array_bytes = 9 * 8;
    array.byte_count("my_array", 2);
    assert_eq!(array_bytes, array.byte_count("my_array", 2));
}

#[test]
fn container_serialization_arr2_u64() {
    let array = zeros(vec![2, 2], 0u64);

    // comes from figure 1-7
    // 128 bytes of matrix content + the first 8 bytes for the header
    //
    // since we are not writing complex data, skip the last 5 rows (8 bytes each)
    let expected_len = 128 + 8 - (5 * 8);

    let mut buffer = Vec::new();

    array.write_container(&mut buffer, "my_array");

    assert_eq!(expected_len, buffer.len());
}

#[test]
fn container_serialization_arr2_f32() {
    let array = zeros(vec![2, 2], F32Bits(0.0f32.to_bits()));

    // comes from figure 1-7, adapted for 32 bit matrix data
    let expected_len = 10 * 8;

    let mut buffer = Vec::new();

    array.write_container(&mut buffer, "my_array");

    assert_eq!(expected_len, buffer.len());
}

#[test]
/// checks that the bytes writen by Array2<T> are in the correct order
/// that we expect
fn write_arr2() {
    // row-major: [[1, 2], [3, 4]]
    let array = NdArray::from_shape_vec(vec![2, 2], vec![1u8, 2, 3, 4]).unwrap();

    let expected_order: Vec<u8> = [1u8, 3, 2, 4]
        .into_iter()
        .map(|x| x.le_bytes())
        .flatten()
        .collect();
    let mut buffer = Vec::new();

    array.write_matrix(&mut buffer);

    assert_eq!(expected_order, buffer);
}

#[test]
fn write_arr3_column_major() {
    // element (i, j, k) holds 100 i + 10 j + k
    let mut data = Vec::new();
    for i in 0..2u16 {
        for j in 0..3u16 {
            for k in 0..2u16 {
                data.push(100 * i + 10 * j + k);
            }
        }
    }
    let array = NdArray::from_shape_vec(vec![2, 3, 2], data).unwrap();
    let mut buffer = Vec::new();
    array.write_matrix(&mut buffer);
    let mut expected = Vec::new();
    for k in 0..2u16 {
        for j in 0..3u16 {
            for i in 0..2u16 {
                expected.extend_from_slice(&(100 * i + 10 * j + k).to_le_bytes());
            }
        }
    }
    assert_eq!(buffer, expected);
}

#[test]
fn write_arr4_column_major() {
    let shape = vec![2, 1, 3, 2];
    let data: Vec<i32> = (0..12).map(|x| x - 6).collect();
    let array = NdArray::from_shape_vec(shape, data.clone()).unwrap();
    let mut buffer = Vec::new();
    array.write_matrix(&mut buffer);
    let mut expected = Vec::new();
    for w in 0..2 {
        for k in 0..3 {
            for j in 0..1 {
                for i in 0..2 {
                    let row_major = ((i * 1 + j) * 3 + k) * 2 + w;
                    expected.extend_from_slice(&data[row_major].to_le_bytes());
                }
            }
        }
    }
    assert_eq!(buffer, expected);
}

#[test]
fn write_arr1_in_order() {
    let array = NdArray::from_shape_vec(vec![3], vec![-1i16, 2, 300]).unwrap();
    let mut buffer = Vec::new();
    array.write_matrix(&mut buffer);
    assert_eq!(buffer, vec![0xff, 0xff, 2, 0, 44, 1]);
}

#[test]
fn empty_array_writes_no_data() {
    let array = NdArray::<u8>::from_shape_vec(vec![0, 5], vec![]).unwrap();
    let mut buffer = Vec::new();
    array.write_matrix(&mut buffer);
    assert!(buffer.is_empty());
}

#[test]
fn shape_errors() {
    assert_eq!(
        NdArray::from_shape_vec(vec![], vec![1u8]).err(),
        Some(ShapeError::UnsupportedDimensionality)
    );
    assert_eq!(
        NdArray::from_shape_vec(vec![1, 1, 1, 1, 1], vec![1u8]).err(),
        Some(ShapeError::UnsupportedDimensionality)
    );
    assert_eq!(
        NdArray::from_shape_vec(vec![2, 2], vec![1u8, 2, 3]).err(),
        Some(ShapeError::IncompatibleShape)
    );
    assert_eq!(
        NdArray::from_shape_vec(vec![usize::MAX, 2], vec![1u8]).err(),
        Some(ShapeError::IncompatibleShape)
    );
    assert_eq!(
        NdArray::from_shape_vec(vec![usize::MAX, 2, 0], Vec::<u8>::new()).map(|a| a.len()),
        Ok(0)
    );
    let a = NdArray::from_shape_vec(vec![2, 3], vec![0i64; 6]).unwrap();
    assert_eq!(a.shape(), &[2, 3]);
    assert_eq!(a.ndim(), 2);
    assert_eq!(a.len(), 6);
    assert_eq!(a.as_slice(), &[0i64; 6]);
}

#[test]
fn le_bytes_of_each_type() {
    assert_eq!((-2i8).le_bytes(), vec![0xfe]);
    assert_eq!(200u8.le_bytes(), vec![200]);
    assert_eq!((-2i16).le_bytes(), vec![0xfe, 0xff]);
    assert_eq!(0x1234u16.le_bytes(), vec![0x34, 0x12]);
    assert_eq!((-2i32).le_bytes(), (-2i32).to_le_bytes().to_vec());
    assert_eq!(0x12345678u32.le_bytes(), vec![0x78, 0x56, 0x34, 0x12]);
    assert_eq!((-2i64).le_bytes(), (-2i64).to_le_bytes().to_vec());
    assert_eq!(u64::MAX.le_bytes(), vec![0xff; 8]);
    assert_eq!(F32Bits(1.5f32.to_bits()).le_bytes(), 1.5f32.to_le_bytes().to_vec());
    assert_eq!(F64Bits(1.5f64.to_bits()).le_bytes(), 1.5f64.to_le_bytes().to_vec());
}

#[test]
fn identifiers_of_each_type() {
    assert_eq!((i8::matlab_id(), i8::matrix_id(), i8::width()), (1, 8, 1));
    assert_eq!((u8::matlab_id(), u8::matrix_id(), u8::width()), (2, 9, 1));
    assert_eq!((i16::matlab_id(), i16::matrix_id(), i16::width()), (3, 10, 2));
    assert_eq!((u16::matlab_id(), u16::matrix_id(), u16::width()), (4, 11, 2));
    assert_eq!((i32::matlab_id(), i32::matrix_id(), i32::width()), (5, 12, 4));
    assert_eq!((u32::matlab_id(), u32::matrix_id(), u32::width()), (6, 13, 4));
    assert_eq!((F32Bits::matlab_id(), F32Bits::matrix_id(), F32Bits::width()), (7, 7, 4));
    assert_eq!((F64Bits::matlab_id(), F64Bits::matrix_id(), F64Bits::width()), (9, 6, 8));
    assert_eq!((i64::matlab_id(), i64::matrix_id(), i64::width()), (12, 14, 8));
    assert_eq!((u64::matlab_id(), u64::matrix_id(), u64::width()), (13, 15, 8));
}

#[test]
fn matrix_container_bytes_exact() {
    let array = NdArray::from_shape_vec(vec![2, 2], vec![1u8, 2, 3, 4]).unwrap();
    let mut buffer = Vec::new();
    array.write_container(&mut buffer, "a1234567");
    let mut expected: Vec<u8> = vec![14, 0, 0, 0, 64, 0, 0, 0];
    // array flags: miUINT32, 8 bytes, class 9 (uint8), 0
    expected.extend_from_slice(&[6, 0, 0, 0, 8, 0, 0, 0, 9, 0, 0, 0, 0, 0, 0, 0]);
    // dimensions
    expected.extend_from_slice(&[5, 0, 0, 0, 8, 0, 0, 0, 2, 0, 0, 0, 2, 0, 0, 0]);
    // name
    expected.extend_from_slice(&[1, 0, 0, 0, 8, 0, 0, 0]);
    expected.extend_from_slice(b"a1234567");
    // data: miUINT8, 4 bytes, column-major, padding
    expected.extend_from_slice(&[2, 0, 0, 0, 4, 0, 0, 0, 1, 3, 2, 4, 0, 0, 0, 0]);
    assert_eq!(buffer, expected);
    // the tag records the bytes that follow it
    assert_eq!(buffer.len() - 8, array.byte_count("a1234567", 2));
}

#[test]
fn vector_container_bytes() {
    let v = vec![1.0f64, 2.0, 3.0, 4.0];
    let bits: Vec<F64Bits> = v.iter().map(|x| F64Bits(x.to_bits())).collect();
    let mut buffer = Vec::new();
    bits.write_container(&mut buffer, "a");
    // a named one-dimensional matrix of four doubles
    let mut expected: Vec<u8> = vec![14, 0, 0, 0, 88, 0, 0, 0];
    expected.extend_from_slice(&[6, 0, 0, 0, 8, 0, 0, 0, 6, 0, 0, 0, 0, 0, 0, 0]);
    expected.extend_from_slice(&[5, 0, 0, 0, 4, 0, 0, 0, 4, 0, 0, 0, 0, 0, 0, 0]);
    expected.extend_from_slice(&[1, 0, 0, 0, 1, 0, 0, 0, b'a', 0, 0, 0, 0, 0, 0, 0]);
    expected.extend_from_slice(&[9, 0, 0, 0, 32, 0, 0, 0]);
    for x in &v {
        expected.extend_from_slice(&x.to_le_bytes());
    }
    assert_eq!(buffer, expected);
    // the same bytes as the one-dimensional array
    let array = NdArray::from_shape_vec(vec![4], bits.clone()).unwrap();
    let mut from_array = Vec::new();
    array.write_container(&mut from_array, "a");
    assert_eq!(buffer, from_array);

    let small = vec![1u8, 2, 3];
    let mut buffer = Vec::new();
    small.write_container(&mut buffer, "v");
    assert_eq!(&buffer[0..4], &[14, 0, 0, 0]);
    assert_eq!(&buffer[buffer.len() - 16..], &[2, 0, 0, 0, 3, 0, 0, 0, 1, 2, 3, 0, 0, 0, 0, 0]);
    assert_eq!(buffer.len() % 8, 0);
}

#[test]
fn checked_byte_count() {
    assert_eq!(checked_matrix_byte_count(8, 2, 32), Some(88));
    assert_eq!(checked_matrix_byte_count(1, 1, 3), Some(16 + 16 + 16 + 16));
    assert_eq!(checked_matrix_byte_count(0, usize::MAX, 0), None);
    assert_eq!(checked_matrix_byte_count(usize::MAX - 3, 1, 0), None);
}

#[test]
fn matrix_tag_length_law_on_values() {
    for (shape, name) in [(vec![3], "x"), (vec![1, 7, 2], "longer_name_here"), (vec![2, 2, 2, 2], "m")] {
        let n: usize = shape.iter().product();
        let array = NdArray::from_shape_vec(shape.clone(), vec![5i16; n]).unwrap();
        let mut buffer = Vec::new();
        array.write_container(&mut buffer, name);
        let recorded = u32::from_le_bytes([buffer[4], buffer[5], buffer[6], buffer[7]]) as usize;
        assert_eq!(recorded, buffer.len() - 8);
        assert_eq!(recorded, array.byte_count(name, shape.len()));
        assert_eq!(buffer.len() % 8, 0);
    }
}

#[test]
fn transpose_law_on_values() {
    // a 2 by 3 array, and its 3 by 2 transpose
    let data = vec![1u8, 2, 3, 4, 5, 6];
    let transposed = vec![1u8, 4, 2, 5, 3, 6];
    let a = NdArray::from_shape_vec(vec![2, 3], data.clone()).unwrap();
    let t = NdArray::from_shape_vec(vec![3, 2], transposed.clone()).unwrap();
    let mut written = Vec::new();
    a.write_matrix(&mut written);
    assert_eq!(written, transposed);
    let mut written_t = Vec::new();
    t.write_matrix(&mut written_t);
    assert_eq!(written_t, data);
}
