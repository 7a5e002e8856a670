use mat5::utils::{
    create_flag_1, fill_byte_padding, padding_bytes_required, write_array_name,
    write_default_header, write_matrix_dimensions, write_text_header,
};

#[test]
fn check_default_header_len() {
    let mut buffer = Vec::new();
    write_default_header(&mut buffer);
    assert_eq!(buffer.len(), 128);
}

#[test]
fn array_name_length_1() {
    let array_name = "123456789";
    let mut buffer = Vec::new();
    assert!(array_name.len() > 8);
    assert!(array_name.len() < 16);
    write_array_name(&mut buffer, array_name);

    // 8 for header, 16 from the name (rounded up from 9 with 7 padding bytes)
    assert_eq!(buffer.len(), 8 + 16);
}

#[test]
fn default_header_contents() {
    let mut buffer = Vec::new();
    write_default_header(&mut buffer);
    assert_eq!(&buffer[0..19], b"default text header");
    assert!(buffer[19..116].iter().all(|b| *b == b' '));
    assert_eq!(&buffer[116..124], &[0u8; 8]);
    assert_eq!(&buffer[124..126], &[0x00, 0x01]);
    assert_eq!(&buffer[126..128], b"IM");
}

#[test]
fn text_header_is_padded_with_spaces() {
    let mut buffer = vec![7u8];
    write_text_header(&mut buffer, "abc");
    assert_eq!(buffer.len(), 1 + 116);
    assert_eq!(&buffer[0..4], &[7, b'a', b'b', b'c']);
    assert!(buffer[4..].iter().all(|b| *b == 32));
}

#[test]
fn text_header_of_full_length() {
    let text = "x".repeat(116);
    let mut buffer = Vec::new();
    write_text_header(&mut buffer, &text);
    assert_eq!(buffer, text.as_bytes());
}

#[test]
fn array_name_bytes_exact() {
    let mut buffer = Vec::new();
    write_array_name(&mut buffer, "a12345678");
    let mut expected = vec![1, 0, 0, 0, 9, 0, 0, 0];
    expected.extend_from_slice(b"a12345678");
    expected.extend_from_slice(&[0; 7]);
    assert_eq!(buffer, expected);
}

#[test]
fn array_name_of_eight_bytes_has_no_padding() {
    let mut buffer = Vec::new();
    write_array_name(&mut buffer, "a1234567");
    assert_eq!(buffer.len(), 16);
}

#[test]
fn array_name_utf8_length() {
    // two bytes per character
    let mut buffer = Vec::new();
    write_array_name(&mut buffer, "éé");
    assert_eq!(&buffer[4..8], &[4, 0, 0, 0]);
    assert_eq!(buffer.len(), 16);
}

#[test]
fn matrix_dimensions_bytes() {
    let mut buffer = Vec::new();
    write_matrix_dimensions(&mut buffer, &[2, 3, 300]);
    assert_eq!(
        buffer,
        vec![5, 0, 0, 0, 12, 0, 0, 0, 2, 0, 0, 0, 3, 0, 0, 0, 44, 1, 0, 0, 0, 0, 0, 0]
    );
}

#[test]
fn matrix_dimensions_even_count() {
    let mut buffer = Vec::new();
    write_matrix_dimensions(&mut buffer, &[2, 2]);
    assert_eq!(buffer, vec![5, 0, 0, 0, 8, 0, 0, 0, 2, 0, 0, 0, 2, 0, 0, 0]);
}

#[test]
fn padding_values() {
    assert_eq!(padding_bytes_required(0), 0);
    assert_eq!(padding_bytes_required(1), 7);
    assert_eq!(padding_bytes_required(7), 1);
    assert_eq!(padding_bytes_required(8), 0);
    assert_eq!(padding_bytes_required(9), 7);
    assert_eq!(padding_bytes_required(20), 4);
}

#[test]
fn fill_padding_appends_zeros() {
    let mut buffer = vec![9u8, 9, 9];
    fill_byte_padding(&mut buffer, 3);
    assert_eq!(buffer, vec![9, 9, 9, 0, 0, 0, 0, 0]);
    let mut aligned = vec![1u8];
    fill_byte_padding(&mut aligned, 16);
    assert_eq!(aligned, vec![1]);
}

#[test]
fn flag_values() {
    assert_eq!(create_flag_1(6, false, false, false), 6);
    assert_eq!(create_flag_1(6, true, false, false), 6 + 2048);
    assert_eq!(create_flag_1(6, false, true, false), 6 + 512);
    assert_eq!(create_flag_1(6, false, false, true), 6 + 1024);
    assert_eq!(create_flag_1(15, true, true, true), 15 + 2048 + 512 + 1024);
}
