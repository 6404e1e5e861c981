use encase::{ConstStr, Error, FieldLayout, ShaderType, ShaderValue, StorageBuffer};

fn field(name: &str, ty: ShaderType) -> FieldLayout {
    FieldLayout {
        name: ConstStr::new().str(name),
        ty,
        align_override: None,
        size_override: None,
    }
}

#[test]
fn buffer_too_small() {
    let test = ShaderType::Struct {
        fields: vec![field("a", ShaderType::Scalar)],
    };
    let mut v = ShaderValue::Struct(vec![ShaderValue::Scalar(4)]);
    let mut buffer = StorageBuffer::new([0u8]);

    assert!(matches!(
        buffer.write(&test, &v),
        Err(Error::BufferTooSmall {
            expected: 4,
            found: 1
        })
    ));

    assert!(matches!(
        buffer.read(&test, &mut v),
        Err(Error::BufferTooSmall {
            expected: 4,
            found: 1
        })
    ));

    assert!(matches!(
        buffer.create(&test),
        Err(Error::BufferTooSmall {
            expected: 4,
            found: 1
        })
    ));
}
