use mat5::parse::parse_mat_bytes;
use mat5::{check_file_creator, write_default_header, Container, F32Bits, F64Bits, NdArray, Num};

/// Writes a file holding the header and the given arrays, as a `MatFile`
/// would, and checks that the first array reads back with its name, shape
/// and elements in column-major order.
fn write_and_load<T: Num>(arrays: &[(&'static str, &NdArray<T>)]) -> Vec<u8> {
    let mut file = Vec::new();
    write_default_header(&mut file);
    for (name, array) in arrays {
        array.write_container(&mut file, name);
    }
    file
}

fn check_first<T: Num>(file: &[u8], name: &str, array: &NdArray<T>) {
    let contents = parse_mat_bytes(file).unwrap();
    assert_eq!(contents.array_name.name, name);
    let dims: Vec<usize> = contents.dimensions.dimension_sizes.iter().map(|d| *d as usize).collect();
    assert_eq!(dims, array.shape());
    assert_eq!(contents.array_flags.flag_1, T::matrix_id() as u32);
    assert_eq!(contents.array_data.array_type, T::matlab_id());
    assert_eq!(contents.array_data.array_data_bytes.len(), array.len() * T::width());
    assert_eq!(file.len() % 8, 0);
}

fn u32_array(shape: Vec<usize>, data: Vec<u32>) -> NdArray<u32> {
    NdArray::from_shape_vec(shape, data).unwrap()
}

#[test]
fn name_requires_padding() {
    let run = "requires_padding";
    let inner = u32_array(vec![2, 2], vec![1, 2, 3, 4]);
    let check_file = check_file_creator(run, &["a12345678"], false);
    assert_eq!(check_file, "load(\"./tests/requires_padding.mat\")\na12345678");
    let file = write_and_load(&[("a12345678", &inner)]);
    check_first(&file, "a12345678", &inner);
}

#[test]
// both the array bytes and the name require padding
fn array_bytes_require_padding() {
    let run = "array_require_padding";
    let inner = NdArray::from_shape_vec(vec![2, 2], vec![1u8, 2, 3, 4]).unwrap();
    let check_file = check_file_creator(run, &["a1234567"], false);
    assert_eq!(check_file, "load(\"./tests/array_require_padding.mat\")\na1234567");
    let file = write_and_load(&[("a1234567", &inner)]);
    check_first(&file, "a1234567", &inner);
    let contents = parse_mat_bytes(&file).unwrap();
    assert_eq!(contents.array_data.padding_bytes, 4);
    assert_eq!(contents.array_data.array_data_bytes, vec![1, 3, 2, 4]);
}

#[test]
// The dimensions of the array are required to be padded correctly
fn dimensions_require_padding() {
    let run = "pad_dimensions";
    let inner = u32_array(vec![2], vec![1, 2]);
    let check_file = check_file_creator(run, &["a1234567"], false);
    assert_eq!(check_file, "load(\"./tests/pad_dimensions.mat\")\na1234567");
    let file = write_and_load(&[("a1234567", &inner)]);
    check_first(&file, "a1234567", &inner);
    let contents = parse_mat_bytes(&file).unwrap();
    assert_eq!(contents.dimensions.dimension_length, 4);
    assert_eq!(contents.dimensions.padding_bytes, 4);
}

#[test]
fn empty_file() {
    let run = "empty_file";
    let check_file = check_file_creator(run, &[], false);
    assert_eq!(check_file, "load(\"./tests/empty_file.mat\")");
    let mut file = Vec::new();
    write_default_header(&mut file);
    assert_eq!(file.len(), 128);
}

fn f64_array(rows: [[f64; 2]; 2]) -> NdArray<F64Bits> {
    let data = rows.iter().flatten().map(|x| F64Bits(x.to_bits())).collect();
    NdArray::from_shape_vec(vec![2, 2], data).unwrap()
}

#[test]
// used for debugging against matlab / octave files
fn two_by_two_mirror_octave_test() {
    let run = "2x2_octave_mirror";
    let inner = f64_array([[1., 2.], [3., 4.]]);
    let check_file = check_file_creator(run, &["mat"], false);
    assert_eq!(check_file, "load(\"./tests/2x2_octave_mirror.mat\")\nmat");
    let file = write_and_load(&[("mat", &inner)]);
    check_first(&file, "mat", &inner);
    let contents = parse_mat_bytes(&file).unwrap();
    let values: Vec<f64> = contents
        .array_data
        .array_data_bytes
        .chunks(8)
        .map(|c| f64::from_le_bytes(c.try_into().unwrap()))
        .collect();
    assert_eq!(values, vec![1., 3., 2., 4.]);
}

#[test]
fn multi_array_per_file() {
    let run = "multi_array_file";
    let inner1 = f64_array([[1., 2.], [3., 4.]]);
    let inner2 = f64_array([[1., 2.], [3., 4.]]);
    let check_file = check_file_creator(run, &["mat1", "mat2"], false);
    assert_eq!(check_file, "load(\"./tests/multi_array_file.mat\")\nmat1\nmat2");
    let file = write_and_load(&[("mat1", &inner1), ("mat2", &inner2)]);
    check_first(&file, "mat1", &inner1);
    // the second matrix starts where the first one ends
    let first_len = 8 + u32::from_le_bytes([file[132], file[133], file[134], file[135]]) as usize;
    let mut second = file[..128].to_vec();
    second.extend_from_slice(&file[128 + first_len..]);
    check_first(&second, "mat2", &inner2);
}

/// Writes one array of three values 1, 2, 3 as "a1234567" and reads it back.
fn one_item<T: Num + std::fmt::Debug + PartialEq>(run: &str, values: [T; 3]) {
    let inner = NdArray::from_shape_vec(vec![3], values.to_vec()).unwrap();
    let check_file = check_file_creator(run, &["a1234567"], false);
    assert_eq!(check_file, format!("load(\"./tests/{run}.mat\")\na1234567"));
    let file = write_and_load(&[("a1234567", &inner)]);
    check_first(&file, "a1234567", &inner);
    let contents = parse_mat_bytes(&file).unwrap();
    let expected: Vec<u8> = values.iter().flat_map(|v| v.le_bytes()).collect();
    assert_eq!(contents.array_data.array_data_bytes, expected);
}

#[test]
fn one_item_u8() {
    one_item("one_item_u8", [1u8, 2, 3]);
}

#[test]
fn one_item_i8() {
    one_item("one_item_i8", [1i8, 2, 3]);
}

#[test]
fn one_item_u16() {
    one_item("one_item_u16", [1u16, 2, 3]);
}

#[test]
fn one_item_i16() {
    one_item("one_item_i16", [1i16, 2, 3]);
}

#[test]
fn one_item_i32() {
    one_item("one_item_i32", [1i32, 2, 3]);
}

#[test]
fn one_item_u32() {
    one_item("one_item_u32", [1u32, 2, 3]);
}

#[test]
fn one_item_f32() {
    one_item("one_item_f32", [1.0f32, 2.0, 3.0].map(|x| F32Bits(x.to_bits())));
}

#[test]
fn one_item_f64() {
    one_item("one_item_f64", [1.0f64, 2.0, 3.0].map(|x| F64Bits(x.to_bits())));
}

#[test]
fn one_item_i64() {
    one_item("one_item_i64", [1i64, 2, 3]);
}

#[test]
fn one_item_u64() {
    one_item("one_item_u64", [1u64, 2, 3]);
}

/// Reads back every matrix of a file, in order: (name, dimensions).
fn all_matrices(file: &[u8]) -> Vec<(String, Vec<i32>)> {
    let mut out = Vec::new();
    let mut pos = 128;
    while pos < file.len() {
        let len = u32::from_le_bytes([file[pos + 4], file[pos + 5], file[pos + 6], file[pos + 7]]) as usize;
        let mut one = file[..128].to_vec();
        one.extend_from_slice(&file[pos..pos + 8 + len]);
        let contents = parse_mat_bytes(&one).unwrap();
        out.push((contents.array_name.name, contents.dimensions.dimension_sizes));
        pos += 8 + len;
    }
    out
}

#[test]
fn derived_proc_macro() {
    // the file that `#[derive(MatFile)]` on `Foo { a: Array2<u64>, b: Array3<u8>, c: Array4<f32> }` writes
    let runner = "derived_proc_macro";
    let a = NdArray::from_shape_vec(vec![10, 10], vec![0u64; 100]).unwrap();
    let b = NdArray::from_shape_vec(vec![10, 10, 2], vec![0u8; 200]).unwrap();
    let c = NdArray::from_shape_vec(vec![10, 10, 1, 5], vec![F32Bits(0.0f32.to_bits()); 500]).unwrap();
    let check_file = check_file_creator(runner, &["a", "b", "c"], false);
    assert_eq!(check_file, "load(\"./tests/derived_proc_macro.mat\")\na\nb\nc");
    let mut file = Vec::new();
    write_default_header(&mut file);
    a.write_container(&mut file, "a");
    b.write_container(&mut file, "b");
    c.write_container(&mut file, "c");
    assert_eq!(
        all_matrices(&file),
        vec![
            ("a".to_string(), vec![10, 10]),
            ("b".to_string(), vec![10, 10, 2]),
            ("c".to_string(), vec![10, 10, 1, 5]),
        ]
    );
}

#[test]
fn probe_data() {
    let nx = 100;
    let ny = 4;
    let nz = 150;
    let runner = "probe_data";
    let n = nx * ny * nz;
    // `Array1::linspace(1., n, n)` in the shape (nx, ny, nz)
    let values: Vec<F64Bits> = (0..n).map(|k| F64Bits((1.0 + k as f64).to_bits())).collect();
    let arr = NdArray::from_shape_vec(vec![nx, ny, nz], values.clone()).unwrap();
    let check_file = check_file_creator(runner, &["viscous", "log_law", "freestream"], true);
    assert_eq!(
        check_file,
        "load(\"./tests/probe_data.mat\")\nviscous;\nlog_law;\nfreestream;"
    );
    let mut file = Vec::new();
    write_default_header(&mut file);
    arr.write_container(&mut file, "viscous");
    arr.write_container(&mut file, "log_law");
    arr.write_container(&mut file, "freestream");
    let dims = vec![nx as i32, ny as i32, nz as i32];
    assert_eq!(
        all_matrices(&file),
        vec![
            ("viscous".to_string(), dims.clone()),
            ("log_law".to_string(), dims.clone()),
            ("freestream".to_string(), dims),
        ]
    );
    // the element (i, j, k) comes at i + nx (j + ny k)
    let contents = parse_mat_bytes(&file).unwrap();
    let data = contents.array_data.array_data_bytes;
    let (i, j, k) = (3, 2, 7);
    let at = 8 * (i + nx * (j + ny * k));
    let value = f64::from_le_bytes(data[at..at + 8].try_into().unwrap());
    assert_eq!(value, 1.0 + ((i * ny + j) * nz + k) as f64);
}
