use encase::ArrayLength;

#[test]
fn runtime_sized_array_derived_traits() {
    assert_eq!(ArrayLength::default(), ArrayLength.clone());

    assert_eq!(format!("{:?}", ArrayLength), "ArrayLength");
}
