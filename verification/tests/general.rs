use encase::{ConstStr, FieldLayout, ShaderType, ShaderValue, StorageBuffer};

fn field(name: &str, ty: ShaderType) -> FieldLayout {
    FieldLayout {
        name: ConstStr::new().str(name),
        ty,
        align_override: None,
        size_override: None,
    }
}

fn scalar() -> ShaderType {
    ShaderType::Scalar
}

fn vector(n: u64) -> ShaderType {
    ShaderType::Vector { n }
}

fn matrix(c: u64, r: u64) -> ShaderType {
    ShaderType::Matrix { c, r }
}

fn array(element: ShaderType, n: u64) -> ShaderType {
    ShaderType::Array {
        element: Box::new(element),
        n,
    }
}

/// The shape of one large struct exercising every kind of field, ending in
/// a length marker and a runtime-sized array of 2x3 matrices.
fn a_type() -> ShaderType {
    ShaderType::Struct {
        fields: vec![
            field("f", scalar()),
            field("u", scalar()),
            field("i", scalar()),
            field("nu", scalar()),
            field("ni", scalar()),
            field("wu", scalar()),
            field("wi", scalar()),
            field("au", scalar()),
            field("ai", scalar()),
            field("v2", vector(2)),
            field("v3", vector(3)),
            field("v4", vector(4)),
            field("mat2", matrix(2, 2)),
            field("mat2x3", matrix(2, 3)),
            field("mat2x4", matrix(2, 4)),
            field("mat3x2", matrix(3, 2)),
            field("mat3", matrix(3, 3)),
            field("mat3x4", matrix(3, 4)),
            field("mat4x2", matrix(4, 2)),
            field("mat4x3", matrix(4, 3)),
            field("mat4", matrix(4, 4)),
            field("arrf", array(scalar(), 32)),
            field("arru", array(scalar(), 32)),
            field("arri", array(scalar(), 32)),
            field("arrvf", array(vector(2), 16)),
            field("arrvu", array(vector(3), 16)),
            field("arrvi", array(vector(4), 16)),
            field("arrm2", array(matrix(2, 2), 8)),
            field("arrm3", array(matrix(3, 3), 8)),
            field("arrm4", array(matrix(4, 4), 8)),
            field("rt_arr_len", ShaderType::ArrayLength),
            field(
                "rt_arr",
                ShaderType::RuntimeArray {
                    element: Box::new(matrix(2, 3)),
                },
            ),
        ],
    }
}

/// A deterministic word supply: every value gets a distinct bit pattern.
struct Gen(u32);

impl Gen {
    fn word(&mut self) -> u32 {
        self.0 = self.0.wrapping_mul(1664525).wrapping_add(1013904223);
        self.0
    }

    fn vector(&mut self, n: usize) -> ShaderValue {
        ShaderValue::Vector((0..n).map(|_| self.word()).collect())
    }

    fn matrix(&mut self, c: usize, r: usize) -> ShaderValue {
        ShaderValue::Matrix((0..c).map(|_| (0..r).map(|_| self.word()).collect()).collect())
    }
}

fn gen_a(rt_len: usize) -> ShaderValue {
    let mut g = Gen(1234);
    let mut vals: Vec<ShaderValue> = Vec::new();
    for _ in 0..9 {
        vals.push(ShaderValue::Scalar(g.word()));
    }
    vals.push(g.vector(2));
    vals.push(g.vector(3));
    vals.push(g.vector(4));
    for (c, r) in [
        (2, 2),
        (2, 3),
        (2, 4),
        (3, 2),
        (3, 3),
        (3, 4),
        (4, 2),
        (4, 3),
        (4, 4),
    ] {
        vals.push(g.matrix(c, r));
    }
    for _ in 0..3 {
        vals.push(ShaderValue::Array(
            (0..32).map(|_| ShaderValue::Scalar(g.word())).collect(),
        ));
    }
    for n in [2, 3, 4] {
        vals.push(ShaderValue::Array((0..16).map(|_| g.vector(n)).collect()));
    }
    for cr in [2, 3, 4] {
        vals.push(ShaderValue::Array(
            (0..8).map(|_| g.matrix(cr, cr)).collect(),
        ));
    }
    vals.push(ShaderValue::ArrayLength);
    vals.push(ShaderValue::RuntimeArray(
        (0..rt_len).map(|_| g.matrix(2, 3)).collect(),
    ));
    ShaderValue::Struct(vals)
}

#[test]
fn size() {
    let ty = a_type();
    let a = gen_a(64);
    assert!(a.matches_type(&ty));
    assert_eq!(ty.size(&a), 4560);
}

#[test]
fn calculate_size_for() {
    assert_eq!(a_type().calculate_size_for(12), 2896);
}

#[test]
fn all_types() {
    let ty = a_type();
    let a = gen_a(64);

    let mut buffer = StorageBuffer::new(Vec::<u8>::new());
    buffer.write(&ty, &a).unwrap();
    let raw_buffer = buffer.into_inner();

    let reread = StorageBuffer::new(raw_buffer.clone());
    let mut a_clone = reread.create(&ty).unwrap();
    let mut buffer_2 = StorageBuffer::new(Vec::<u8>::new());
    buffer_2.write(&ty, &a_clone).unwrap();
    let mut raw_buffer_2 = buffer_2.into_inner();

    assert_eq!(raw_buffer, raw_buffer_2);

    // shrink the resident tail, then read the full 64 elements back in and
    // write them out again
    match &mut a_clone {
        ShaderValue::Struct(vs) => match vs.last_mut() {
            Some(ShaderValue::RuntimeArray(tail)) => tail.truncate(10),
            _ => panic!(),
        },
        _ => panic!(),
    }
    let reread_2 = StorageBuffer::new(raw_buffer_2.clone());
    reread_2.read(&ty, &mut a_clone).unwrap();
    let mut buffer_3 = StorageBuffer::new(core::mem::take(&mut raw_buffer_2));
    buffer_3.write(&ty, &a_clone).unwrap();
    raw_buffer_2 = buffer_3.into_inner();

    assert_eq!(raw_buffer, raw_buffer_2);
}

#[test]
fn truncated_tail_round_trip() {
    // a struct ending in a length marker and a 64-element runtime array
    // round-trips to length 64; written after truncation to 10 elements,
    // its bytes equal a fresh write of the 10-element value
    let ty = a_type();
    let a = gen_a(64);

    let mut buffer = StorageBuffer::new(Vec::<u8>::new());
    buffer.write(&ty, &a).unwrap();
    let reread = StorageBuffer::new(buffer.into_inner());
    let mut a_clone = reread.create(&ty).unwrap();
    match &a_clone {
        ShaderValue::Struct(vs) => match vs.last() {
            Some(ShaderValue::RuntimeArray(tail)) => assert_eq!(tail.len(), 64),
            _ => panic!(),
        },
        _ => panic!(),
    }

    match &mut a_clone {
        ShaderValue::Struct(vs) => match vs.last_mut() {
            Some(ShaderValue::RuntimeArray(tail)) => tail.truncate(10),
            _ => panic!(),
        },
        _ => panic!(),
    }
    let mut truncated_buffer = StorageBuffer::new(Vec::<u8>::new());
    truncated_buffer.write(&ty, &a_clone).unwrap();
    let truncated_bytes = truncated_buffer.into_inner();

    let mut fresh_buffer = StorageBuffer::new(Vec::<u8>::new());
    fresh_buffer.write(&ty, &gen_a(10)).unwrap();
    assert_eq!(truncated_bytes, fresh_buffer.into_inner());

    let back = StorageBuffer::new(truncated_bytes);
    match back.create(&ty).unwrap() {
        ShaderValue::Struct(vs) => match vs.last() {
            Some(ShaderValue::RuntimeArray(tail)) => assert_eq!(tail.len(), 10),
            _ => panic!(),
        },
        _ => panic!(),
    }
}
