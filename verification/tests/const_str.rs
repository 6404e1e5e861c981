use encase::ConstStr;

#[test]
fn test_trait() {
    let name = ConstStr::new().str("kilo").str("meter").u64(1234567);
    assert_eq!(name.as_bytes(), "kilometer1234567".as_bytes());
}

#[test]
fn single_digit() {
    assert_eq!(ConstStr::new().u64(0).as_bytes(), b"0");
    assert_eq!(ConstStr::new().u64(7).as_bytes(), b"7");
}

#[test]
fn append() {
    let a = ConstStr::new().str("alignment ");
    let b = ConstStr::new().u64(256);
    assert_eq!(a.append(&b).as_bytes(), b"alignment 256");
}
