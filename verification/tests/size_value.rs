use encase::SizeValue;

#[test]
fn size_value_new() {
    assert_eq!(4, SizeValue::new(4).get());
}

#[test]
fn mul() {
    assert_eq!(SizeValue::new(64), SizeValue::new(8).mul(8));
}

#[test]
fn size_value_derived_traits() {
    let size = SizeValue::new(8);
    #[allow(clippy::clone_on_copy)]
    let size_clone = size.clone();

    assert!(size == size_clone);

    assert_eq!(format!("{:?}", size), "SizeValue(8)");
}
