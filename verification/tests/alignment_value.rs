use encase::{AlignmentValue, SizeValue};

#[test]
fn alignment_value_new() {
    assert_eq!(4, AlignmentValue::new(4).get());
}

#[test]
fn from_next_power_of_two_size() {
    assert_eq!(
        AlignmentValue::new(8),
        AlignmentValue::from_next_power_of_two_size(SizeValue::new(7))
    );
}

#[test]
fn max() {
    assert_eq!(
        AlignmentValue::new(32),
        AlignmentValue::max([
            AlignmentValue::new(2),
            AlignmentValue::new(8),
            AlignmentValue::new(32)
        ])
    );
}

#[test]
fn is_aligned() {
    assert!(AlignmentValue::new(8).is_aligned(32));
    assert!(!AlignmentValue::new(8).is_aligned(9));
}

#[test]
fn padding_needed_for() {
    assert_eq!(1, AlignmentValue::new(8).padding_needed_for(7));
    assert_eq!(16 - 9, AlignmentValue::new(8).padding_needed_for(9));
}

#[test]
fn round_up() {
    assert_eq!(24, AlignmentValue::new(8).round_up(20));
    assert_eq!(
        SizeValue::new(16),
        AlignmentValue::new(16).round_up_size(SizeValue::new(7))
    );
}

#[test]
fn alignment_value_derived_traits() {
    let alignment = AlignmentValue::new(8);
    #[allow(clippy::clone_on_copy)]
    let alignment_clone = alignment.clone();

    assert!(alignment == alignment_clone);

    assert_eq!(format!("{:?}", alignment), "AlignmentValue(8)");
}
