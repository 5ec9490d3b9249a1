use rerun_simple_gs::archetype::{
    SplatComponent, archetype_name, component_name, display_name, optional_components,
    present_batches, required_components,
};
use rerun_simple_gs::cli::{SceneChoice, scene_from_args};
use rerun_simple_gs::rows::read_binary_scalar;
use rerun_simple_gs::{GaussianSet, RawScalar, ScalarType, SetBuffer, SetValidationError, ShCoefficients};

type Cloud = GaussianSet<[f32; 3], [f32; 4], f32>;

fn set_of(n: usize) -> Cloud {
    let mut s = Cloud::new();
    for i in 0..n {
        s.means_world.push([i as f32, 0.0, 0.0]);
        s.quats.push([0.0, 0.0, 0.0, 1.0]);
        s.scales.push([1.0, 1.0, 1.0]);
        s.opacities.push(0.5);
        s.colors_dc.push([1.0, 1.0, 1.0]);
    }
    s
}

#[test]
fn new_and_default_sets_are_empty() {
    let s = Cloud::new();
    assert_eq!(s.len(), 0);
    assert!(s.sh_coeffs.is_none());
    let d = Cloud::default();
    assert_eq!(d.len(), 0);
    assert_eq!(d.validate(), Err(SetValidationError::Empty));
    assert_eq!(SetValidationError::Empty.message(), "the gaussian set is empty");
}

#[test]
fn consistent_set_validates() {
    let mut s = set_of(3);
    assert_eq!(s.len(), 3);
    assert_eq!(s.validate(), Ok(()));
    s.sh_coeffs = Some(ShCoefficients { coeffs_per_channel: 2, coefficients: vec![0.0; 18] });
    assert_eq!(s.validate(), Ok(()));
}

#[test]
fn mismatched_buffers_are_reported_in_order() {
    let mut s = set_of(2);
    s.quats.pop();
    s.scales.pop();
    let e = s.validate().unwrap_err();
    assert_eq!(e, SetValidationError::MismatchedLengths { means: 2, buffer: SetBuffer::Quaternions, len: 1 });
    assert_eq!(e.message(), "mismatched gaussian buffer lengths: means=2, quaternions=1");

    let mut s = set_of(2);
    s.scales.push([0.0; 3]);
    assert_eq!(s.validate().unwrap_err().message(), "mismatched gaussian buffer lengths: means=2, scales=3");

    let mut s = set_of(2);
    s.opacities.clear();
    assert_eq!(s.validate().unwrap_err().message(), "mismatched gaussian buffer lengths: means=2, opacities=0");

    let mut s = set_of(10);
    s.colors_dc.pop();
    assert_eq!(s.validate().unwrap_err().message(), "mismatched gaussian buffer lengths: means=10, colors_dc=9");
}

#[test]
fn sh_count_is_checked() {
    let mut s = set_of(2);
    s.sh_coeffs = Some(ShCoefficients { coeffs_per_channel: 1, coefficients: vec![0.0; 5] });
    let e = s.validate().unwrap_err();
    assert_eq!(e, SetValidationError::MismatchedShCount { expected: 6, got: 5 });
    assert_eq!(e.message(), "mismatched SH coefficient count: expected 6, got 5");
}

#[test]
fn sh_count_overflow_is_reported() {
    let mut s = set_of(2);
    s.sh_coeffs = Some(ShCoefficients { coeffs_per_channel: usize::MAX / 4, coefficients: vec![] });
    let e = s.validate().unwrap_err();
    assert_eq!(e, SetValidationError::ShCountOverflow);
    assert_eq!(e.message(), "SH coefficient count overflow");
}

#[test]
fn archetype_names() {
    assert_eq!(archetype_name(), "GaussianSplats3D");
    assert_eq!(display_name(), "Gaussian Splats 3D");
    assert_eq!(component_name(SplatComponent::Centers), "GaussianSplats3D:centers");
    assert_eq!(component_name(SplatComponent::Quaternions), "GaussianSplats3D:quaternions");
    assert_eq!(component_name(SplatComponent::Scales), "GaussianSplats3D:scales");
    assert_eq!(component_name(SplatComponent::Opacities), "GaussianSplats3D:opacities");
    assert_eq!(component_name(SplatComponent::Colors), "GaussianSplats3D:colors");
    assert_eq!(component_name(SplatComponent::ShCoefficients), "GaussianSplats3D:sh_coefficients");
}

#[test]
fn archetype_component_lists() {
    assert_eq!(
        required_components(),
        vec![
            SplatComponent::Centers,
            SplatComponent::Quaternions,
            SplatComponent::Scales,
            SplatComponent::Opacities,
            SplatComponent::Colors,
        ]
    );
    assert_eq!(optional_components(), vec![SplatComponent::ShCoefficients]);
}

#[test]
fn only_present_batches_are_serialized_in_order() {
    assert_eq!(present_batches(vec![Some(1), None, Some(3), None, None, Some(6)]), vec![1, 3, 6]);
    assert_eq!(present_batches::<u8>(vec![None, None]), Vec::<u8>::new());
    assert_eq!(present_batches::<u8>(vec![]), Vec::<u8>::new());
}

#[test]
fn command_line_selects_the_scene() {
    assert_eq!(scene_from_args::<String>(vec![]), SceneChoice::Bundled);
    assert_eq!(scene_from_args(vec!["a.ply".to_string()]), SceneChoice::Path("a.ply".to_string()));
    assert_eq!(scene_from_args(vec!["a".to_string(), "b".to_string()]), SceneChoice::Usage);
}

#[test]
fn binary_scalars_read_little_endian_or_fail_short() {
    let data = [0x34u8, 0x12, 0xff, 0xff];
    assert!(matches!(read_binary_scalar(&data, 0, ScalarType::U16), Ok(RawScalar::Int(0x1234))));
    assert!(matches!(read_binary_scalar(&data, 2, ScalarType::I16), Ok(RawScalar::Int(-1))));
    assert!(matches!(read_binary_scalar(&data, 3, ScalarType::U8), Ok(RawScalar::Int(255))));
    assert!(matches!(read_binary_scalar(&data, 0, ScalarType::F32), Ok(RawScalar::F32Bits(0xffff1234))));
    match read_binary_scalar(&data[..1], 0, ScalarType::U16) {
        Err(m) => assert_eq!(m, "failed to fill whole buffer"),
        Ok(v) => panic!("read {:?} from one byte", v),
    }
    assert_eq!(read_binary_scalar(&data, 1, ScalarType::F32).unwrap_err(), "failed to fill whole buffer");
    assert_eq!(read_binary_scalar(&data, 9, ScalarType::U8).unwrap_err(), "failed to fill whole buffer");
    assert_eq!(read_binary_scalar(&data, 0, ScalarType::F64).unwrap_err(), "failed to fill whole buffer");
}
