use encase::{ConstStr, FieldLayout, ShaderType};

#[test]
fn field_padding() {
    let wrapped_f32 = ShaderType::Struct {
        fields: vec![FieldLayout {
            name: ConstStr::new().str("value"),
            ty: ShaderType::Scalar,
            align_override: Some(16),
            size_override: Some(16),
        }],
    };
    assert_eq!(wrapped_f32.metadata().padding(0), 12);
}

#[test]
fn scalar_metadata() {
    let m = ShaderType::Scalar.metadata();
    assert_eq!(m.alignment().get(), 4);
    assert_eq!(m.min_size().get(), 4);
    assert!(m.uniform_min_alignment().is_none());
}

#[test]
fn matrix_metadata() {
    // two columns of three rows: column stride 16, so 4 bytes of padding
    // after each 12-byte column
    let m = ShaderType::Matrix { c: 2, r: 3 }.metadata();
    assert_eq!(m.alignment().get(), 16);
    assert_eq!(m.min_size().get(), 32);
    assert_eq!(m.col_padding(), 4);
}

#[test]
fn schema_validation() {
    let good = ShaderType::Struct {
        fields: vec![
            FieldLayout {
                name: ConstStr::new().str("len"),
                ty: ShaderType::ArrayLength,
                align_override: None,
                size_override: None,
            },
            FieldLayout {
                name: ConstStr::new().str("data"),
                ty: ShaderType::RuntimeArray {
                    element: Box::new(ShaderType::Vector { n: 4 }),
                },
                align_override: None,
                size_override: None,
            },
        ],
    };
    assert!(good.well_formed());
    assert_eq!(good.checked_min_size(), Some(32));

    // a zero-length fixed array
    assert!(!ShaderType::Array {
        element: Box::new(ShaderType::Scalar),
        n: 0,
    }
    .well_formed());

    // an override smaller than the natural value
    assert!(!ShaderType::Struct {
        fields: vec![FieldLayout {
            name: ConstStr::new().str("v"),
            ty: ShaderType::Vector { n: 4 },
            align_override: None,
            size_override: Some(8),
        }],
    }
    .well_formed());

    // a length marker without a runtime-sized tail
    assert!(!ShaderType::Struct {
        fields: vec![
            FieldLayout {
                name: ConstStr::new().str("len"),
                ty: ShaderType::ArrayLength,
                align_override: None,
                size_override: None,
            },
            FieldLayout {
                name: ConstStr::new().str("x"),
                ty: ShaderType::Scalar,
                align_override: None,
                size_override: None,
            },
        ],
    }
    .well_formed());

    // a runtime-sized array anywhere but last
    assert!(!ShaderType::Struct {
        fields: vec![
            FieldLayout {
                name: ConstStr::new().str("data"),
                ty: ShaderType::RuntimeArray {
                    element: Box::new(ShaderType::Scalar),
                },
                align_override: None,
                size_override: None,
            },
            FieldLayout {
                name: ConstStr::new().str("x"),
                ty: ShaderType::Scalar,
                align_override: None,
                size_override: None,
            },
        ],
    }
    .well_formed());
}
