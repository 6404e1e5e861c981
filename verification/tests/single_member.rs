use encase::{ConstStr, DynamicStorageBuffer, DynamicUniformBuffer, FieldLayout, ShaderType, ShaderValue};

fn field(name: &str, ty: ShaderType) -> FieldLayout {
    FieldLayout {
        name: ConstStr::new().str(name),
        ty,
        align_override: None,
        size_override: None,
    }
}

fn test_struct() -> ShaderType {
    ShaderType::Struct {
        fields: vec![field("a", ShaderType::Scalar)],
    }
}

fn words(ws: &[u32]) -> Vec<u8> {
    let mut out = Vec::new();
    for w in ws {
        out.extend_from_slice(&w.to_le_bytes());
    }
    out
}

#[test]
fn single_member_uniform() {
    let mut buffer = DynamicUniformBuffer::new(Vec::<u8>::new());

    let scalar = ShaderType::Scalar;
    let vec2 = ShaderType::Vector { n: 2 };
    let vec3 = ShaderType::Vector { n: 3 };
    let arr2 = ShaderType::Array {
        element: Box::new(ShaderType::Scalar),
        n: 2,
    };

    assert_eq!(
        buffer
            .write_single_member(&scalar, &ShaderValue::Scalar(1))
            .unwrap(),
        0
    );
    assert_eq!(
        buffer
            .write_single_member(&vec2, &ShaderValue::Vector(vec![2, 3]))
            .unwrap(),
        8
    );
    assert_eq!(
        buffer
            .write_single_member(&scalar, &ShaderValue::Scalar(4))
            .unwrap(),
        16
    );
    assert_eq!(
        buffer
            .write_single_member(&vec3, &ShaderValue::Vector(vec![5, 6, 7]))
            .unwrap(),
        32
    );
    assert_eq!(
        buffer
            .write_single_member(
                &arr2,
                &ShaderValue::Array(vec![ShaderValue::Scalar(8), ShaderValue::Scalar(9)]),
            )
            .unwrap(),
        48
    );
    assert_eq!(
        buffer
            .write_single_member(
                &test_struct(),
                &ShaderValue::Struct(vec![ShaderValue::Scalar(10)]),
            )
            .unwrap(),
        64
    );

    assert_eq!(
        buffer.into_inner(),
        words(&[1, 0, 2, 3, 4, 0, 0, 0, 5, 6, 7, 0, 8, 9, 0, 0, 10])
    );
}

#[test]
fn single_member_storage() {
    let mut buffer = DynamicStorageBuffer::new(Vec::<u8>::new());

    let scalar = ShaderType::Scalar;
    let vec2 = ShaderType::Vector { n: 2 };
    let vec3 = ShaderType::Vector { n: 3 };
    let arr2 = ShaderType::Array {
        element: Box::new(ShaderType::Scalar),
        n: 2,
    };

    assert_eq!(
        buffer
            .write_single_member(&scalar, &ShaderValue::Scalar(1))
            .unwrap(),
        0
    );
    assert_eq!(
        buffer
            .write_single_member(&vec2, &ShaderValue::Vector(vec![2, 3]))
            .unwrap(),
        8
    );
    assert_eq!(
        buffer
            .write_single_member(&scalar, &ShaderValue::Scalar(4))
            .unwrap(),
        16
    );
    assert_eq!(
        buffer
            .write_single_member(&vec3, &ShaderValue::Vector(vec![5, 6, 7]))
            .unwrap(),
        32
    );
    assert_eq!(
        buffer
            .write_single_member(
                &arr2,
                &ShaderValue::Array(vec![ShaderValue::Scalar(8), ShaderValue::Scalar(9)]),
            )
            .unwrap(),
        44
    );
    assert_eq!(
        buffer
            .write_single_member(
                &test_struct(),
                &ShaderValue::Struct(vec![ShaderValue::Scalar(10)]),
            )
            .unwrap(),
        52
    );

    assert_eq!(
        buffer.into_inner(),
        words(&[1, 0, 2, 3, 4, 0, 0, 0, 5, 6, 7, 8, 9, 10])
    );
}
