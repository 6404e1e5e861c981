use encase::{ConstStr, FieldLayout, ShaderType, ShaderValue, UniformBuffer};

fn field(name: &str, ty: ShaderType) -> FieldLayout {
    FieldLayout {
        name: ConstStr::new().str(name),
        ty,
        align_override: None,
        size_override: None,
    }
}

#[test]
fn uniform() {
    let test_uniform = ShaderType::Struct {
        fields: vec![field("a", ShaderType::Scalar), field("b", ShaderType::Scalar)],
    };
    let mut val = ShaderValue::Struct(vec![ShaderValue::Scalar(4), ShaderValue::Scalar(23)]);

    let mut buffer = UniformBuffer::new(Vec::new());

    buffer.write(&test_uniform, &val).unwrap();
    let reread = UniformBuffer::new(buffer.into_inner());
    reread.read(&test_uniform, &mut val).unwrap();
    assert_eq!(val, reread.create(&test_uniform).unwrap());
}
