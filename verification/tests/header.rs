use rerun_simple_gs::{PlyFormat, PlyLoadError, ScalarType, parse_header, parse_scalar_type};

fn header_message(bytes: &[u8]) -> String {
    match parse_header(bytes) {
        Err(PlyLoadError::Header(m)) => m,
        other => panic!("expected a header error, got {:?}", other),
    }
}

fn unsupported(bytes: &[u8]) -> String {
    match parse_header(bytes) {
        Err(PlyLoadError::Unsupported(m)) => m,
        other => panic!("expected an unsupported error, got {:?}", other),
    }
}

fn name(v: &[char]) -> String {
    v.iter().collect()
}

#[test]
fn parses_minimal_ascii_header() {
    let bytes = b"ply\nformat ascii 1.0\nelement vertex 2\nproperty float x\nend_header\n1\n2\n";
    let h = parse_header(bytes).unwrap();
    assert_eq!(h.format, PlyFormat::Ascii);
    assert_eq!(h.vertex_count, 2);
    assert_eq!(h.properties.len(), 1);
    assert_eq!(name(&h.properties[0].name), "x");
    assert_eq!(h.properties[0].scalar_type, ScalarType::F32);
    assert_eq!(h.data_offset, 66);
}

#[test]
fn parses_binary_header_with_crlf_and_comments() {
    let bytes = b"ply\r\nformat binary_little_endian 1.0\r\ncomment made by hand\r\nelement vertex 3\r\nproperty uchar red\r\nproperty double opacity\r\nend_header\r\n\x01";
    let h = parse_header(bytes).unwrap();
    assert_eq!(h.format, PlyFormat::BinaryLittleEndian);
    assert_eq!(h.vertex_count, 3);
    assert_eq!(h.properties.len(), 2);
    assert_eq!(name(&h.properties[0].name), "red");
    assert_eq!(h.properties[0].scalar_type, ScalarType::U8);
    assert_eq!(name(&h.properties[1].name), "opacity");
    assert_eq!(h.properties[1].scalar_type, ScalarType::F64);
    assert_eq!(h.data_offset, bytes.len() - 1);
}

#[test]
fn lf_terminator_is_preferred_over_an_earlier_crlf() {
    let bytes = b"ply\nformat ascii 1.0\nelement vertex 1\nend_header\r\nx\nend_header\n";
    let h = parse_header(bytes).unwrap();
    assert_eq!(h.data_offset, bytes.len());
}

#[test]
fn properties_of_other_elements_are_ignored() {
    let bytes = b"ply\nformat ascii 1.0\nelement vertex 1\nproperty float x\nelement face 4\nproperty list uchar int vertex_indices\nend_header\n";
    let h = parse_header(bytes).unwrap();
    assert_eq!(h.properties.len(), 1);
    assert_eq!(h.vertex_count, 1);
}

#[test]
fn leading_whitespace_and_tabs_are_trimmed() {
    let bytes = b"  ply \n\tformat   ascii 1.0\n   element\tvertex\t7\n property  int   x  \n\nend_header\n";
    let h = parse_header(bytes).unwrap();
    assert_eq!(h.vertex_count, 7);
    assert_eq!(h.properties[0].scalar_type, ScalarType::I32);
}

#[test]
fn missing_end_header_is_refused() {
    assert_eq!(header_message(b"ply\nformat ascii 1.0\nelement vertex 1\n"), "missing end_header");
}

#[test]
fn missing_magic_is_refused() {
    assert_eq!(header_message(b"plx\nformat ascii 1.0\nend_header\n"), "missing `ply` magic");
    assert_eq!(header_message(b"\nply\nend_header\n"), "missing `ply` magic");
}

#[test]
fn unsupported_format_is_refused() {
    assert_eq!(
        unsupported(b"ply\nformat binary_big_endian 1.0\nelement vertex 1\nend_header\n"),
        "binary_big_endian"
    );
    assert_eq!(unsupported(b"ply\nformat\nend_header\n"), "");
}

#[test]
fn missing_format_is_refused() {
    assert_eq!(header_message(b"ply\nelement vertex 1\nend_header\n"), "missing format");
}

#[test]
fn missing_vertex_element_is_refused() {
    assert_eq!(
        header_message(b"ply\nformat ascii 1.0\nelement face 2\nend_header\n"),
        "missing vertex element"
    );
}

#[test]
fn bad_vertex_counts_are_refused() {
    assert_eq!(
        header_message(b"ply\nformat ascii 1.0\nelement vertex\nend_header\n"),
        "vertex count missing"
    );
    assert_eq!(
        header_message(b"ply\nformat ascii 1.0\nelement vertex 1x\nend_header\n"),
        "invalid digit found in string"
    );
    assert_eq!(
        header_message(b"ply\nformat ascii 1.0\nelement vertex -1\nend_header\n"),
        "invalid digit found in string"
    );
    assert_eq!(
        header_message(b"ply\nformat ascii 1.0\nelement vertex 123456789012345678901234567890\nend_header\n"),
        "number too large to fit in target type"
    );
    assert_eq!(
        header_message(b"ply\nformat ascii 1.0\nelement vertex +\nend_header\n"),
        "invalid digit found in string"
    );
}

#[test]
fn vertex_count_with_plus_sign_is_accepted() {
    let h = parse_header(b"ply\nformat ascii 1.0\nelement vertex +12\nend_header\n").unwrap();
    assert_eq!(h.vertex_count, 12);
}

#[test]
fn bad_property_lines_are_refused() {
    assert_eq!(
        header_message(b"ply\nformat ascii 1.0\nelement vertex 1\nproperty\nend_header\n"),
        "property type missing"
    );
    assert_eq!(
        header_message(b"ply\nformat ascii 1.0\nelement vertex 1\nproperty float\nend_header\n"),
        "property name missing"
    );
    assert_eq!(
        unsupported(b"ply\nformat ascii 1.0\nelement vertex 1\nproperty list uchar int idx\nend_header\n"),
        "list"
    );
}

#[test]
fn non_utf8_header_is_refused() {
    assert_eq!(
        header_message(b"ply\ncomment \xff\nend_header\n"),
        "invalid utf-8 sequence of 1 bytes from index 12"
    );
    assert_eq!(
        header_message(b"ply\ncomment \xe2\x82x\nend_header\n"),
        "invalid utf-8 sequence of 2 bytes from index 12"
    );
}

#[test]
fn every_scalar_type_name_is_known() {
    let cases = [
        ("char", ScalarType::I8),
        ("int8", ScalarType::I8),
        ("uchar", ScalarType::U8),
        ("uint8", ScalarType::U8),
        ("short", ScalarType::I16),
        ("int16", ScalarType::I16),
        ("ushort", ScalarType::U16),
        ("uint16", ScalarType::U16),
        ("int", ScalarType::I32),
        ("int32", ScalarType::I32),
        ("uint", ScalarType::U32),
        ("uint32", ScalarType::U32),
        ("float", ScalarType::F32),
        ("float32", ScalarType::F32),
        ("double", ScalarType::F64),
        ("float64", ScalarType::F64),
    ];
    for (token, expected) in cases {
        assert_eq!(parse_scalar_type(token).unwrap(), expected);
    }
}

#[test]
fn unknown_scalar_type_is_unsupported() {
    match parse_scalar_type("int64") {
        Err(PlyLoadError::Unsupported(m)) => assert_eq!(m, "int64"),
        other => panic!("unexpected {:?}", other),
    }
}
