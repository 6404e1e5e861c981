use encase::{
    ConstStr, DynamicStorageBuffer, DynamicUniformBuffer, Error, FieldLayout, ShaderType,
    ShaderValue, StorageBuffer, UniformBuffer,
};

fn field(name: &str, ty: ShaderType) -> FieldLayout {
    FieldLayout {
        name: ConstStr::new().str(name),
        ty,
        align_override: None,
        size_override: None,
    }
}

#[test]
fn two_scalar_struct_layout() {
    // struct { f: f32, u: u32 }: alignment 4, size 8, no padding anywhere
    let ty = ShaderType::Struct {
        fields: vec![field("f", ShaderType::Scalar), field("u", ShaderType::Scalar)],
    };
    let m = ty.metadata();
    assert_eq!(m.alignment().get(), 4);
    assert_eq!(m.min_size().get(), 8);
    assert_eq!(m.offset(0), 0);
    assert_eq!(m.offset(1), 4);
    assert_eq!(m.padding(0), 0);
    assert_eq!(m.padding(1), 0);
}

#[test]
fn vec3_field_struct_layout() {
    // struct { a: u32, b: vec3<u32> }: the 16-byte alignment of the vector
    // pushes it to offset 16 and rounds the struct to 32 bytes
    let ty = ShaderType::Struct {
        fields: vec![
            field("a", ShaderType::Scalar),
            field("b", ShaderType::Vector { n: 3 }),
        ],
    };
    let m = ty.metadata();
    assert_eq!(m.offset(0), 0);
    assert_eq!(m.offset(1), 16);
    assert_eq!(m.alignment().get(), 16);
    assert_eq!(m.min_size().get(), 32);
    assert_eq!(m.last_offset(), 16);
}

#[test]
fn scalar_array_layout() {
    // array<f32, 32>: stride 4, size 128, no element padding
    let ty = ShaderType::Array {
        element: Box::new(ShaderType::Scalar),
        n: 32,
    };
    let m = ty.metadata();
    assert_eq!(m.stride().get(), 4);
    assert_eq!(m.min_size().get(), 128);
    assert_eq!(m.el_padding(), 0);
}

fn twenty_byte_struct() -> ShaderType {
    ShaderType::Struct {
        fields: vec![
            field("a", ShaderType::Scalar),
            field("b", ShaderType::Scalar),
            field("c", ShaderType::Scalar),
            field("d", ShaderType::Scalar),
            field("e", ShaderType::Scalar),
        ],
    }
}

fn twenty_byte_value() -> ShaderValue {
    ShaderValue::Struct(vec![
        ShaderValue::Scalar(1),
        ShaderValue::Scalar(2),
        ShaderValue::Scalar(3),
        ShaderValue::Scalar(4),
        ShaderValue::Scalar(5),
    ])
}

#[test]
fn dynamic_uniform_struct_break_spacing() {
    // at the default 256-byte binding alignment, a 20-byte value, a struct
    // break, and a second 20-byte value place the second instance at 256
    let ty = twenty_byte_struct();
    let v = twenty_byte_value();
    assert_eq!(ty.size(&v), 20);

    let mut buffer = DynamicUniformBuffer::new(Vec::<u8>::new());
    let first = buffer.write(&ty, &v).unwrap();
    assert_eq!(first, 0);
    buffer.write_dynamic_struct_break();
    let second = buffer.write(&ty, &v).unwrap();
    assert_eq!(second, 256);
}

#[test]
fn dynamic_struct_break_rounds_offset() {
    // a struct break after writing 20 bytes leaves the offset at the next
    // multiple of the binding alignment
    let ty = twenty_byte_struct();
    let v = twenty_byte_value();

    let mut buffer = DynamicStorageBuffer::new_with_alignment(Vec::<u8>::new(), 32);
    buffer.write(&ty, &v).unwrap();
    assert_eq!(buffer.offset(), 20);
    buffer.write_dynamic_struct_break();
    assert_eq!(buffer.offset(), 32);
}

#[test]
fn single_member_assembly() {
    // assemble struct { a: u32, b: vec3<u32> } member by member and read
    // the whole struct back
    let whole = ShaderType::Struct {
        fields: vec![
            field("a", ShaderType::Scalar),
            field("b", ShaderType::Vector { n: 3 }),
        ],
    };
    let mut buffer = DynamicStorageBuffer::new(vec![0u8; 32]);
    let a_at = buffer
        .write_single_member(&ShaderType::Scalar, &ShaderValue::Scalar(7))
        .unwrap();
    let b_at = buffer
        .write_single_member(
            &ShaderType::Vector { n: 3 },
            &ShaderValue::Vector(vec![1, 2, 3]),
        )
        .unwrap();
    assert_eq!(a_at, 0);
    assert_eq!(b_at, 16);
    buffer.write_dynamic_struct_break();
    assert_eq!(buffer.offset(), 256);

    let bytes = buffer.into_inner();
    let reread = StorageBuffer::new(bytes);
    let v = reread.create(&whole).unwrap();
    assert_eq!(
        v,
        ShaderValue::Struct(vec![
            ShaderValue::Scalar(7),
            ShaderValue::Vector(vec![1, 2, 3]),
        ])
    );
}

#[test]
fn write_too_small_fixed_buffer() {
    // writing an 8-byte value into a 4-byte fixed buffer reports the need
    // and what was there
    let ty = ShaderType::Vector { n: 2 };
    let v = ShaderValue::Vector(vec![1, 2]);
    let mut buffer = StorageBuffer::new([0u8; 4]);
    let err = buffer.write(&ty, &v).unwrap_err();
    assert_eq!(
        err,
        Error::BufferTooSmall {
            expected: 8,
            found: 4,
        }
    );
}

#[test]
fn read_below_min_size() {
    let ty = ShaderType::Vector { n: 2 };
    let buffer = StorageBuffer::new([0u8; 4]);
    let err = buffer.create(&ty).unwrap_err();
    assert_eq!(
        err,
        Error::BufferTooSmall {
            expected: 8,
            found: 4,
        }
    );

    let mut value = ShaderValue::Vector(vec![0, 0]);
    let err = buffer.read(&ty, &mut value).unwrap_err();
    assert_eq!(
        err,
        Error::BufferTooSmall {
            expected: 8,
            found: 4,
        }
    );
}

#[test]
fn scalar_round_trip() {
    let ty = ShaderType::Scalar;
    let v = ShaderValue::Scalar(0xdead_beef);
    let mut buffer = StorageBuffer::new(Vec::<u8>::new());
    buffer.write(&ty, &v).unwrap();
    let bytes = buffer.into_inner();
    assert_eq!(bytes, vec![0xef, 0xbe, 0xad, 0xde]);
    assert_eq!(StorageBuffer::new(bytes).create(&ty).unwrap(), v);
}

#[test]
fn matrix_round_trip_with_column_padding() {
    // a 2x3 matrix writes two 12-byte columns at a 16-byte column stride
    let ty = ShaderType::Matrix { c: 2, r: 3 };
    let v = ShaderValue::Matrix(vec![vec![1, 2, 3], vec![4, 5, 6]]);
    let mut buffer = StorageBuffer::new(Vec::<u8>::new());
    buffer.write(&ty, &v).unwrap();
    let bytes = buffer.into_inner();
    assert_eq!(bytes.len(), 32);
    assert_eq!(&bytes[0..4], &[1, 0, 0, 0]);
    assert_eq!(&bytes[8..12], &[3, 0, 0, 0]);
    // the gap after the first column is skipped, not written
    assert_eq!(&bytes[12..16], &[0, 0, 0, 0]);
    assert_eq!(&bytes[16..20], &[4, 0, 0, 0]);
    assert_eq!(StorageBuffer::new(bytes).create(&ty).unwrap(), v);
}

#[test]
fn uniform_buffer_round_trip() {
    let ty = ShaderType::Struct {
        fields: vec![
            field("a", ShaderType::Scalar),
            field("b", ShaderType::Vector { n: 4 }),
        ],
    };
    assert!(ty.assert_uniform_compat().is_ok());
    let v = ShaderValue::Struct(vec![
        ShaderValue::Scalar(9),
        ShaderValue::Vector(vec![10, 11, 12, 13]),
    ]);
    let mut buffer = UniformBuffer::new(Vec::<u8>::new());
    buffer.write(&ty, &v).unwrap();
    let reread = UniformBuffer::new(buffer.into_inner());
    assert_eq!(reread.create(&ty).unwrap(), v);
}

#[test]
fn metadata_is_repeatable() {
    let ty = ShaderType::Struct {
        fields: vec![
            field("a", ShaderType::Scalar),
            field("b", ShaderType::Vector { n: 3 }),
        ],
    };
    let m1 = ty.metadata();
    let m2 = ty.metadata();
    assert_eq!(m1.alignment(), m2.alignment());
    assert_eq!(m1.min_size(), m2.min_size());
    assert_eq!(m1.offset(0), m2.offset(0));
    assert_eq!(m1.offset(1), m2.offset(1));
    assert_eq!(m1.padding(0), m2.padding(0));
    assert_eq!(m1.padding(1), m2.padding(1));
}

#[test]
fn packed_fast_path_matches_writer() {
    // a gap-free layout: the packed bulk run equals what the recursive
    // writer lays down
    let ty = ShaderType::Struct {
        fields: vec![
            field("a", ShaderType::Scalar),
            field("b", ShaderType::Scalar),
            field("v", ShaderType::Vector { n: 2 }),
        ],
    };
    assert!(!ty.has_internal_padding());
    assert!(!ty.metadata().has_internal_padding);
    let v = ShaderValue::Struct(vec![
        ShaderValue::Scalar(0x01020304),
        ShaderValue::Scalar(0x05060708),
        ShaderValue::Vector(vec![9, 10]),
    ]);

    let mut buffer = StorageBuffer::new(Vec::<u8>::new());
    buffer.write(&ty, &v).unwrap();
    let written = buffer.into_inner();

    let mut packed: Vec<u8> = Vec::new();
    v.encode_packed(&ty, None, &mut packed);
    assert_eq!(packed, written);

    // column padding makes a matrix layout gap-bearing
    assert!(ShaderType::Matrix { c: 2, r: 3 }.has_internal_padding());
    assert!(!ShaderType::Matrix { c: 2, r: 4 }.has_internal_padding());
}

#[test]
fn dynamic_storage_read_back() {
    // whole values written back to back at the binding alignment read back
    // in order
    let ty = twenty_byte_struct();
    let v = twenty_byte_value();

    let mut buffer = DynamicStorageBuffer::new_with_alignment(Vec::<u8>::new(), 32);
    buffer.write(&ty, &v).unwrap();
    buffer.write_dynamic_struct_break();
    let second = ShaderValue::Struct(vec![
        ShaderValue::Scalar(6),
        ShaderValue::Scalar(7),
        ShaderValue::Scalar(8),
        ShaderValue::Scalar(9),
        ShaderValue::Scalar(10),
    ]);
    buffer.write(&ty, &second).unwrap();

    let mut reread = DynamicStorageBuffer::new_with_alignment(buffer.into_inner(), 32);
    let first_back = reread.create(&ty).unwrap();
    assert_eq!(first_back, v);
    assert_eq!(reread.offset(), 20);
    reread.read_dynamic_struct_break();
    assert_eq!(reread.offset(), 32);
    let second_back = reread.create(&ty).unwrap();
    assert_eq!(second_back, second);

    let mut positioned = DynamicStorageBuffer::new_with_alignment(reread.into_inner(), 32);
    positioned.set_offset(32);
    assert_eq!(positioned.create(&ty).unwrap(), second);
}
