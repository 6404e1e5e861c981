use encase::{ConstStr, FieldLayout, ShaderType};

fn field(name: &str, ty: ShaderType) -> FieldLayout {
    FieldLayout {
        name: ConstStr::new().str(name),
        ty,
        align_override: None,
        size_override: None,
    }
}

fn field_with_align(name: &str, ty: ShaderType, align: u64) -> FieldLayout {
    FieldLayout {
        name: ConstStr::new().str(name),
        ty,
        align_override: Some(align),
        size_override: None,
    }
}

fn field_with_size(name: &str, ty: ShaderType, size: u64) -> FieldLayout {
    FieldLayout {
        name: ConstStr::new().str(name),
        ty,
        align_override: None,
        size_override: Some(size),
    }
}

fn s() -> ShaderType {
    ShaderType::Struct {
        fields: vec![field("x", ShaderType::Scalar)],
    }
}

fn wrapped_f32() -> ShaderType {
    ShaderType::Struct {
        fields: vec![field_with_size("elem", ShaderType::Scalar, 16)],
    }
}

#[test]
fn assert_uniform_compat_success() {
    let test_struct = ShaderType::Struct {
        fields: vec![
            field("a", ShaderType::Scalar),
            field_with_align("b", s(), 16),
        ],
    };
    assert!(test_struct.assert_uniform_compat().is_ok());

    let test_array = ShaderType::Struct {
        fields: vec![
            field("a", ShaderType::Scalar),
            field_with_align(
                "b",
                ShaderType::Array {
                    element: Box::new(wrapped_f32()),
                    n: 1,
                },
                16,
            ),
        ],
    };
    assert!(test_array.assert_uniform_compat().is_ok());

    let test_struct_first = ShaderType::Struct {
        fields: vec![
            field("a", s()),
            field_with_align("b", ShaderType::Scalar, 16),
        ],
    };
    assert!(test_struct_first.assert_uniform_compat().is_ok());
}

#[test]
fn rejects_misaligned_struct_field() {
    // the composite field `b` sits at offset 4, which is not a multiple
    // of 16
    let t = ShaderType::Struct {
        fields: vec![field("a", ShaderType::Scalar), field("b", s())],
    };
    let err = t.assert_uniform_compat().unwrap_err();
    assert_eq!(
        err.as_bytes(),
        "offset of field 'b' must be a multiple of 16 (current offset: 4)".as_bytes()
    );
}

#[test]
fn rejects_small_array_stride() {
    // an array of scalars has stride 4
    let t = ShaderType::Array {
        element: Box::new(ShaderType::Scalar),
        n: 8,
    };
    let err = t.assert_uniform_compat().unwrap_err();
    assert_eq!(
        err.as_bytes(),
        "array stride must be a multiple of 16 (current stride: 4)".as_bytes()
    );
}

#[test]
fn rejects_runtime_sized_array() {
    let t = ShaderType::RuntimeArray {
        element: Box::new(ShaderType::Vector { n: 4 }),
    };
    let err = t.assert_uniform_compat().unwrap_err();
    assert_eq!(
        err.as_bytes(),
        "runtime-sized array can't be used in uniform buffers".as_bytes()
    );
}
