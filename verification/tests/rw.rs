use encase::{BufferMut, BufferRef, Error};

#[test]
fn rw_array() {
    let arr: [u8; 6] = [0, 1, 2, 3, 4, 5];

    assert_eq!(BufferRef::len(&arr), 6);
    assert_eq!(BufferRef::read_slice(&arr, 3, 2), vec![3, 4]);
}

#[test]
fn rw_vec() {
    let vec: Vec<u8> = Vec::from([0, 1, 2, 3, 4, 5]);

    assert_eq!(BufferRef::len(&vec), 6);
    assert_eq!(BufferRef::read_slice(&vec, 3, 2), vec![3, 4]);
}

#[test]
fn rw_derived_traits() {
    let err = Error::BufferTooSmall {
        expected: 4,
        found: 2,
    };

    assert_eq!(
        err.clone().message().as_bytes(),
        "could not read/write 4 bytes from/into 2 byte sized buffer".as_bytes()
    );

    assert_eq!(
        format!("{:?}", err.clone()),
        "BufferTooSmall { expected: 4, found: 2 }"
    );
}
