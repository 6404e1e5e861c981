use encase::{BufferMut, EnlargeError};

#[test]
fn array() {
    let mut arr: [u8; 6] = [0, 1, 2, 3, 4, 5];

    assert_eq!(BufferMut::capacity(&arr), 6);

    BufferMut::write_slice(&mut arr, 3, &[9, 1]);
    assert_eq!(arr, [0, 1, 2, 9, 1, 5]);

    assert!(matches!(BufferMut::try_enlarge(&mut arr, 6), Ok(())));
    assert!(matches!(
        BufferMut::try_enlarge(&mut arr, 7),
        Err(EnlargeError)
    ));
}

#[test]
fn vec() {
    let mut vec: Vec<u8> = Vec::from([0, 1, 2, 3, 4, 5]);

    assert_eq!(BufferMut::capacity(&vec), vec.capacity());

    BufferMut::write_slice(&mut vec, 3, &[9, 1]);
    assert_eq!(vec, Vec::from([0, 1, 2, 9, 1, 5]));

    assert!(matches!(BufferMut::try_enlarge(&mut vec, 100), Ok(())));
    assert_eq!(vec.len(), 100);
    assert!(matches!(
        BufferMut::try_enlarge(&mut vec, usize::MAX),
        Err(EnlargeError)
    ));
}

#[test]
fn derived_traits() {
    let err = EnlargeError;

    assert_eq!(
        err.clone().message().as_bytes(),
        "could not enlarge buffer".as_bytes()
    );

    assert_eq!(format!("{:?}", err.clone()), "EnlargeError");
}

#[test]
fn try_extend() {
    let mut vec: Vec<u8> = Vec::new();

    BufferMut::try_enlarge(&mut vec, 10).unwrap();

    assert_eq!(vec.len(), 10);
    assert!(vec.iter().all(|val| *val == 0));
}

#[test]
fn try_extend_noop() {
    let mut vec = vec![0; 12];

    BufferMut::try_enlarge(&mut vec, 10).unwrap();

    assert_eq!(vec.len(), 12);
}

#[test]
fn try_extend_err() {
    let mut vec = vec![0; 12];

    assert!(BufferMut::try_enlarge(&mut vec, usize::MAX).is_err());
}
