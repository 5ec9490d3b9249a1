use rerun_simple_gs::{
    ColorSource, GaussianSet, PlyLoadError, RawScalar, ScalarType, SplatCore, SplatInputs,
    decode_gaussian_ply,
};

type RawSet = GaussianSet<[f32; 3], [f32; 4], f32>;

fn to_f32(r: &RawScalar) -> f32 {
    match r {
        RawScalar::Int(i) => *i as f32,
        RawScalar::F32Bits(b) => f32::from_bits(*b),
        RawScalar::F64Bits(b) => f64::from_bits(*b) as f32,
        RawScalar::F32Text(t) => t.iter().collect::<String>().parse::<f32>().unwrap(),
        RawScalar::F64Text(t) => t.iter().collect::<String>().parse::<f64>().unwrap() as f32,
    }
}

/// Hands the collected attributes back unchanged, so that tests can see them.
fn keep(a: &SplatInputs<f32>) -> SplatCore<[f32; 3], [f32; 4], f32> {
    let color = match &a.color {
        ColorSource::ShDc(dc) => *dc,
        ColorSource::Rgb(c) => [
            c[0].map(|x| x.0).unwrap_or(1.0),
            c[1].map(|x| x.0).unwrap_or(1.0),
            c[2].map(|x| x.0).unwrap_or(1.0),
        ],
    };
    SplatCore {
        mean: a.position,
        quat: a.rotation_xyzw,
        scale: a.log_scale,
        opacity: a.opacity_logit,
        color,
    }
}

fn decode(bytes: &[u8]) -> Result<RawSet, PlyLoadError> {
    decode_gaussian_ply(bytes, 0.0f32, 1.0f32, to_f32, keep)
}

fn data_error(bytes: &[u8]) -> String {
    match decode(bytes) {
        Err(PlyLoadError::Data(m)) => m,
        Err(other) => panic!("expected a data error, got {:?}", other),
        Ok(_) => panic!("expected a data error, got a set"),
    }
}

fn f32s(vals: &[f32]) -> Vec<u8> {
    vals.iter().flat_map(|v| v.to_le_bytes()).collect()
}

#[test]
fn ascii_positions_and_defaults() {
    let bytes = b"ply\nformat ascii 1.0\nelement vertex 2\nproperty float x\nproperty float y\nproperty float z\nend_header\n1 2 3\n-4.5 0 1e2\n";
    let set = decode(bytes).unwrap();
    assert_eq!(set.len(), 2);
    assert_eq!(set.means_world, vec![[1.0, 2.0, 3.0], [-4.5, 0.0, 100.0]]);
    assert_eq!(set.quats, vec![[0.0, 0.0, 0.0, 1.0]; 2]);
    assert_eq!(set.scales, vec![[0.0, 0.0, 0.0]; 2]);
    assert_eq!(set.opacities, vec![1.0, 1.0]);
    assert_eq!(set.colors_dc, vec![[1.0, 1.0, 1.0]; 2]);
    assert!(set.sh_coeffs.is_none());
    assert_eq!(set.validate(), Ok(()));
}

#[test]
fn ascii_rotation_is_reordered_to_xyzw() {
    let bytes = b"ply\nformat ascii 1.0\nelement vertex 1\nproperty float rot_0\nproperty float rot_1\nproperty float rot_2\nproperty float rot_3\nproperty float opacity\nproperty float scale_0\nproperty float scale_1\nproperty float scale_2\nend_header\n0.5 0.1 0.2 0.3 -2 1 2 3\n";
    let set = decode(bytes).unwrap();
    assert_eq!(set.quats, vec![[0.1, 0.2, 0.3, 0.5]]);
    assert_eq!(set.opacities, vec![-2.0]);
    assert_eq!(set.scales, vec![[1.0, 2.0, 3.0]]);
}

#[test]
fn ascii_blank_lines_are_skipped_and_extra_rows_ignored() {
    let bytes = b"ply\nformat ascii 1.0\nelement vertex 2\nproperty float x\nend_header\n\n  \n7\n\t\n8\n9\n";
    let set = decode(bytes).unwrap();
    assert_eq!(set.means_world, vec![[7.0, 0.0, 0.0], [8.0, 0.0, 0.0]]);
}

#[test]
fn ascii_with_fewer_rows_than_announced_keeps_what_is_there() {
    let bytes = b"ply\nformat ascii 1.0\nelement vertex 5\nproperty float x\nend_header\n1\r\n2\r\n";
    let set = decode(bytes).unwrap();
    assert_eq!(set.means_world, vec![[1.0, 0.0, 0.0], [2.0, 0.0, 0.0]]);
}

#[test]
fn ascii_extra_values_on_a_row_are_ignored() {
    let bytes = b"ply\nformat ascii 1.0\nelement vertex 1\nproperty float x\nend_header\n3 4 5 not_a_number\n";
    let set = decode(bytes).unwrap();
    assert_eq!(set.means_world, vec![[3.0, 0.0, 0.0]]);
}

#[test]
fn ascii_short_row_is_refused() {
    let bytes = b"ply\nformat ascii 1.0\nelement vertex 2\nproperty float x\nproperty float y\nproperty float z\nend_header\n1 2 3\n4 5\n";
    assert_eq!(data_error(bytes), "row 1 has 2 values, expected 3");
}

#[test]
fn ascii_integer_errors_carry_the_std_messages() {
    let head = "ply\nformat ascii 1.0\nelement vertex 1\nproperty uchar red\nend_header\n";
    assert_eq!(data_error(format!("{head}256\n").as_bytes()), "number too large to fit in target type");
    assert_eq!(data_error(format!("{head}-1\n").as_bytes()), "invalid digit found in string");
    assert_eq!(data_error(format!("{head}1.5\n").as_bytes()), "invalid digit found in string");
    assert_eq!(data_error(format!("{head}+\n").as_bytes()), "invalid digit found in string");
    let head = "ply\nformat ascii 1.0\nelement vertex 1\nproperty char x\nend_header\n";
    assert_eq!(data_error(format!("{head}-129\n").as_bytes()), "number too small to fit in target type");
    let set = decode(format!("{head}-128\n").as_bytes()).unwrap();
    assert_eq!(set.means_world, vec![[-128.0, 0.0, 0.0]]);
}

#[test]
fn ascii_float_errors_carry_the_std_message() {
    let head = "ply\nformat ascii 1.0\nelement vertex 1\nproperty float x\nend_header\n";
    assert_eq!(data_error(format!("{head}1.2.3\n").as_bytes()), "invalid float literal");
    assert_eq!(data_error(format!("{head}abc\n").as_bytes()), "invalid float literal");
    let set = decode(format!("{head}inf\n").as_bytes()).unwrap();
    assert_eq!(set.means_world[0][0], f32::INFINITY);
    let set = decode(format!("{head}+.5E1\n").as_bytes()).unwrap();
    assert_eq!(set.means_world[0][0], 5.0);
}

#[test]
fn ascii_data_that_is_not_utf8_is_refused() {
    let mut bytes = b"ply\nformat ascii 1.0\nelement vertex 1\nproperty float x\nend_header\n1".to_vec();
    bytes.push(0xff);
    assert_eq!(data_error(&bytes), "invalid utf-8 sequence of 1 bytes from index 1");
    let mut bytes = b"ply\nformat ascii 1.0\nelement vertex 1\nproperty float x\nend_header\n12".to_vec();
    bytes.push(0xe2);
    bytes.push(0x82);
    assert_eq!(data_error(&bytes), "incomplete utf-8 byte sequence from index 2");
}

#[test]
fn a_file_without_rows_is_an_empty_set() {
    let bytes = b"ply\nformat ascii 1.0\nelement vertex 0\nproperty float x\nend_header\n1\n";
    assert_eq!(data_error(bytes), "the gaussian set is empty");
    let bytes = b"ply\nformat binary_little_endian 1.0\nelement vertex 0\nproperty float x\nend_header\n";
    assert_eq!(data_error(bytes), "the gaussian set is empty");
}

#[test]
fn header_errors_pass_through() {
    match decode(b"ply\nformat binary_big_endian 1.0\nelement vertex 1\nend_header\n") {
        Err(PlyLoadError::Unsupported(m)) => assert_eq!(m, "binary_big_endian"),
        other => panic!("unexpected {:?}", other.err()),
    }
    match decode(b"ply\nformat ascii 1.0\nend_header\n") {
        Err(PlyLoadError::Header(m)) => assert_eq!(m, "missing vertex element"),
        other => panic!("unexpected {:?}", other.err()),
    }
}

#[test]
fn binary_floats_and_colors() {
    let mut bytes = b"ply\nformat binary_little_endian 1.0\nelement vertex 2\nproperty float x\nproperty float y\nproperty float z\nproperty uchar red\nend_header\n".to_vec();
    bytes.extend(f32s(&[1.0, 2.0, 3.0]));
    bytes.push(200);
    bytes.extend(f32s(&[-1.0, 0.25, 8.0]));
    bytes.push(7);
    let set = decode(&bytes).unwrap();
    assert_eq!(set.means_world, vec![[1.0, 2.0, 3.0], [-1.0, 0.25, 8.0]]);
    assert_eq!(set.colors_dc, vec![[200.0, 1.0, 1.0], [7.0, 1.0, 1.0]]);
}

#[test]
fn binary_color_channels_carry_their_types() {
    let mut bytes = b"ply\nformat binary_little_endian 1.0\nelement vertex 1\nproperty uchar r\nproperty ushort green\nproperty float b\nend_header\n".to_vec();
    bytes.push(255);
    bytes.extend(65535u16.to_le_bytes());
    bytes.extend(0.5f32.to_le_bytes());
    let seen = std::cell::RefCell::new(Vec::new());
    let set: RawSet = decode_gaussian_ply(&bytes, 0.0f32, 1.0f32, to_f32, |a: &SplatInputs<f32>| {
        if let ColorSource::Rgb(c) = &a.color {
            seen.borrow_mut().push(c.iter().map(|x| x.map(|(_, t)| t)).collect::<Vec<_>>());
        }
        keep(a)
    })
    .unwrap();
    assert_eq!(set.colors_dc, vec![[255.0, 65535.0, 0.5]]);
    assert_eq!(seen.into_inner(), vec![vec![Some(ScalarType::U8), Some(ScalarType::U16), Some(ScalarType::F32)]]);
}

#[test]
fn binary_integers_are_sign_extended() {
    let mut bytes = b"ply\nformat binary_little_endian 1.0\nelement vertex 1\nproperty char x\nproperty short y\nproperty int z\nproperty uint opacity\nproperty double scale_0\nend_header\n".to_vec();
    bytes.push(0xff);
    bytes.extend((-300i16).to_le_bytes());
    bytes.extend((-70000i32).to_le_bytes());
    bytes.extend(4_000_000_000u32.to_le_bytes());
    bytes.extend(2.5f64.to_le_bytes());
    let set = decode(&bytes).unwrap();
    assert_eq!(set.means_world, vec![[-1.0, -300.0, -70000.0]]);
    assert_eq!(set.opacities, vec![4_000_000_000.0]);
    assert_eq!(set.scales, vec![[2.5, 0.0, 0.0]]);
}

#[test]
fn binary_truncated_row_is_refused() {
    let mut bytes = b"ply\nformat binary_little_endian 1.0\nelement vertex 2\nproperty float x\nproperty float y\nend_header\n".to_vec();
    bytes.extend(f32s(&[1.0, 2.0, 3.0]));
    assert_eq!(data_error(&bytes), "row 1: failed to fill whole buffer");
}

#[test]
fn binary_trailing_bytes_are_ignored() {
    let mut bytes = b"ply\nformat binary_little_endian 1.0\nelement vertex 1\nproperty float x\nend_header\n".to_vec();
    bytes.extend(f32s(&[4.0, 5.0]));
    let set = decode(&bytes).unwrap();
    assert_eq!(set.means_world, vec![[4.0, 0.0, 0.0]]);
}

#[test]
fn sh_coefficients_are_packed_channel_major() {
    let bytes = b"ply\nformat ascii 1.0\nelement vertex 2\nproperty float f_dc_0\nproperty float f_dc_1\nproperty float f_dc_2\nproperty float f_rest_0\nproperty float f_rest_1\nproperty float f_rest_2\nproperty float f_rest_3\nproperty float f_rest_4\nproperty float f_rest_5\nend_header\n1 2 3 10 11 20 21 30 31\n4 5 6 40 41 50 51 60 61\n";
    let set = decode(bytes).unwrap();
    assert_eq!(set.colors_dc, vec![[1.0, 2.0, 3.0], [4.0, 5.0, 6.0]]);
    let sh = set.sh_coeffs.as_ref().unwrap();
    assert_eq!(sh.coeffs_per_channel, 3);
    assert_eq!(
        sh.coefficients,
        vec![
            1.0, 2.0, 3.0, 10.0, 20.0, 30.0, 11.0, 21.0, 31.0, //
            4.0, 5.0, 6.0, 40.0, 50.0, 60.0, 41.0, 51.0, 61.0,
        ]
    );
    assert_eq!(set.validate(), Ok(()));
}

#[test]
fn sh_rest_without_dc_uses_zero_dc_and_the_plain_color() {
    let bytes = b"ply\nformat ascii 1.0\nelement vertex 1\nproperty float f_rest_0\nproperty float f_rest_1\nproperty float f_rest_2\nproperty uchar red\nend_header\n7 8 9 128\n";
    let set = decode(bytes).unwrap();
    assert_eq!(set.colors_dc, vec![[128.0, 1.0, 1.0]]);
    let sh = set.sh_coeffs.as_ref().unwrap();
    assert_eq!(sh.coeffs_per_channel, 2);
    assert_eq!(sh.coefficients, vec![0.0, 0.0, 0.0, 7.0, 8.0, 9.0]);
}

#[test]
fn dc_without_rest_gives_one_coefficient_per_channel() {
    let bytes = b"ply\nformat ascii 1.0\nelement vertex 1\nproperty float f_dc_1\nend_header\n0.75\n";
    let set = decode(bytes).unwrap();
    assert_eq!(set.colors_dc, vec![[0.0, 0.75, 0.0]]);
    let sh = set.sh_coeffs.as_ref().unwrap();
    assert_eq!(sh.coeffs_per_channel, 1);
    assert_eq!(sh.coefficients, vec![0.0, 0.75, 0.0]);
}

#[test]
fn incomplete_sh_triplets_are_dropped() {
    // Four distinct rest indices make one complete triplet; index 3 is unused.
    let bytes = b"ply\nformat ascii 1.0\nelement vertex 1\nproperty float f_rest_0\nproperty float f_rest_1\nproperty float f_rest_2\nproperty float f_rest_3\nend_header\n1 2 3 4\n";
    let set = decode(bytes).unwrap();
    let sh = set.sh_coeffs.as_ref().unwrap();
    assert_eq!(sh.coeffs_per_channel, 2);
    assert_eq!(sh.coefficients, vec![0.0, 0.0, 0.0, 1.0, 2.0, 3.0]);
}

#[test]
fn rest_indices_are_parsed_as_usize_and_may_be_missing() {
    // `f_rest_+5` is index 5, `f_rest_x` is no SH property, `f_rest_0` repeats (the last wins).
    let bytes = b"ply\nformat ascii 1.0\nelement vertex 1\nproperty float f_rest_0\nproperty float f_rest_+5\nproperty float f_rest_x\nproperty float f_rest_0\nproperty float f_rest_9\nend_header\n1 2 3 4 5\n";
    let set = decode(bytes).unwrap();
    let sh = set.sh_coeffs.as_ref().unwrap();
    // Distinct indices {0, 5, 9}: one extra coefficient, red = 0, green = 1 (missing), blue = 2 (missing).
    assert_eq!(sh.coeffs_per_channel, 2);
    assert_eq!(sh.coefficients, vec![0.0, 0.0, 0.0, 4.0, 0.0, 0.0]);
}

#[test]
fn a_repeated_property_takes_its_last_value() {
    let bytes = b"ply\nformat ascii 1.0\nelement vertex 1\nproperty float x\nproperty float x\nproperty float opacity\nproperty float opacity\nend_header\n1 2 3 4\n";
    let set = decode(bytes).unwrap();
    assert_eq!(set.means_world, vec![[2.0, 0.0, 0.0]]);
    assert_eq!(set.opacities, vec![4.0]);
}

#[test]
fn unknown_properties_are_ignored() {
    let bytes = b"ply\nformat ascii 1.0\nelement vertex 1\nproperty float nx\nproperty float x\nproperty float scale_3\nproperty float rot_4\nend_header\n9 1 9 9\n";
    let set = decode(bytes).unwrap();
    assert_eq!(set.means_world, vec![[1.0, 0.0, 0.0]]);
    assert_eq!(set.scales, vec![[0.0, 0.0, 0.0]]);
    assert_eq!(set.quats, vec![[0.0, 0.0, 0.0, 1.0]]);
}

#[test]
fn ascii_and_binary_files_decode_alike() {
    let ascii = b"ply\nformat ascii 1.0\nelement vertex 2\nproperty float x\nproperty float f_dc_0\nproperty float f_rest_0\nproperty float f_rest_1\nproperty float f_rest_2\nend_header\n1 2 3 4 5\n6 7 8 9 10\n";
    let mut binary = b"ply\nformat binary_little_endian 1.0\nelement vertex 2\nproperty float x\nproperty float f_dc_0\nproperty float f_rest_0\nproperty float f_rest_1\nproperty float f_rest_2\nend_header\n".to_vec();
    binary.extend(f32s(&[1.0, 2.0, 3.0, 4.0, 5.0, 6.0, 7.0, 8.0, 9.0, 10.0]));
    let a = decode(ascii).unwrap();
    let b = decode(&binary).unwrap();
    assert_eq!(a.means_world, b.means_world);
    assert_eq!(a.colors_dc, b.colors_dc);
    let (sa, sb) = (a.sh_coeffs.unwrap(), b.sh_coeffs.unwrap());
    assert_eq!(sa.coeffs_per_channel, sb.coeffs_per_channel);
    assert_eq!(sa.coefficients, sb.coefficients);
    assert_eq!(sa.coefficients, vec![2.0, 0.0, 0.0, 3.0, 4.0, 5.0, 7.0, 0.0, 0.0, 8.0, 9.0, 10.0]);
}

#[test]
fn activation_is_applied_to_every_row() {
    let bytes = b"ply\nformat ascii 1.0\nelement vertex 3\nproperty float opacity\nend_header\n0\n1\n2\n";
    let set: RawSet = decode_gaussian_ply(bytes, 0.0f32, 1.0f32, to_f32, |a: &SplatInputs<f32>| {
        let mut core = keep(a);
        core.opacity = a.opacity_logit * 10.0 + 1.0;
        core
    })
    .unwrap();
    assert_eq!(set.opacities, vec![1.0, 11.0, 21.0]);
}

#[test]
fn unicode_whitespace_separates_ascii_values() {
    let text = "ply\nformat ascii 1.0\nelement vertex 1\nproperty float x\nproperty float y\nend_header\n1\u{a0}2\u{2003}\n";
    let set = decode(text.as_bytes()).unwrap();
    assert_eq!(set.means_world, vec![[1.0, 2.0, 0.0]]);
}

#[test]
fn non_ascii_tokens_are_refused_as_numbers() {
    let text = "ply\nformat ascii 1.0\nelement vertex 1\nproperty int x\nend_header\n\u{e9}\n";
    assert_eq!(data_error(text.as_bytes()), "invalid digit found in string");
}

#[test]
fn float_tokens_are_accepted_exactly_as_std_parses_them() {
    let tokens = [
        ".5", "5.", ".", "1e", "e5", "1e5", "1E+5", "1e-5", "+inf", "-inf", "INF", "infinity",
        "Infinity", "-NaN", "nan", "NAN", "1_0", "0x1", "+", "-", "+.5", "-5.e3", "1.5e", "1.e2",
        ".e2", "00012", "1..2", "1e5.0", "inff", "in", "+-1", "12345678901234567890",
    ];
    for tok in tokens {
        let text = format!("ply\nformat ascii 1.0\nelement vertex 1\nproperty float x\nproperty double y\nend_header\n{tok} {tok}\n");
        let expected = tok.parse::<f32>();
        match (decode(text.as_bytes()), expected) {
            (Ok(set), Ok(v)) => {
                let got = set.means_world[0];
                let want64 = tok.parse::<f64>().unwrap() as f32;
                assert!(got[0] == v || (got[0].is_nan() && v.is_nan()), "token {tok}");
                assert!(got[1] == want64 || (got[1].is_nan() && want64.is_nan()), "token {tok}");
            }
            (Err(PlyLoadError::Data(m)), Err(_)) => assert_eq!(m, "invalid float literal", "token {tok}"),
            (got, want) => panic!("token {tok}: decoded {:?}, std gives {:?}", got.err(), want),
        }
    }
}

#[test]
fn a_comment_after_the_magic_line_only_moves_the_data() {
    let plain = b"ply\nformat ascii 1.0\nelement vertex 1\nproperty float x\nend_header\n3\n".to_vec();
    let mut commented = b"ply\ncomment anything\n".to_vec();
    commented.extend_from_slice(&plain[4..]);
    let a = rerun_simple_gs::parse_header(&plain).unwrap();
    let b = rerun_simple_gs::parse_header(&commented).unwrap();
    assert_eq!(b.data_offset, a.data_offset + 17);
    assert_eq!(b.vertex_count, a.vertex_count);
    assert_eq!(b.format, a.format);
    assert_eq!(b.properties.len(), a.properties.len());
    assert_eq!(b.properties[0].name, a.properties[0].name);
    assert_eq!(decode(&commented).unwrap().means_world, decode(&plain).unwrap().means_world);
}
