use grepox::trait_ext::{
    ExitStatus, ExtendFromSliceUnchecked, FromBool, IsWhitespace, ReserveTotal,
};

#[test]
fn whitespace_classifier_bytes() {
    assert!(b' '.is_whitespace());
    assert!(b'\t'.is_whitespace());
    assert!(b'\n'.is_whitespace());
    assert!(0x0bu8.is_whitespace());
    assert!(0x0cu8.is_whitespace());
    assert!(b'\r'.is_whitespace());
    assert!(0x80u8.is_whitespace());
    assert!(0xffu8.is_whitespace());
    assert!(!b'a'.is_whitespace());
    assert!(!b'0'.is_whitespace());
    assert!(!0x7fu8.is_whitespace());
    assert!(!0x08u8.is_whitespace());
}

#[test]
fn extend_appends_whole_slice() {
    let mut v: Vec<u8> = vec![1, 2];
    v.extend_from_slice_unchecked(&[3, 4, 5]);
    assert_eq!(v, vec![1, 2, 3, 4, 5]);
}

#[test]
fn reserve_total_keeps_contents() {
    let mut v: Vec<u8> = vec![9, 8];
    assert!(v.reserve_total(100).is_ok());
    assert_eq!(v, vec![9, 8]);
    assert!(v.capacity() >= 100);
    assert!(v.reserve_total(1).is_ok());
    assert_eq!(v, vec![9, 8]);
}

#[test]
fn exit_status_from_bool() {
    assert_eq!(ExitStatus::from_bool(true), ExitStatus::Success);
    assert_eq!(ExitStatus::from_bool(false), ExitStatus::Failure);
}

#[test]
fn reserve_total_no_growth_always_succeeds() {
    let mut v: Vec<u8> = vec![1, 2, 3];
    assert!(v.reserve_total(0).is_ok());
    assert!(v.reserve_total(3).is_ok());
    assert_eq!(v, vec![1, 2, 3]);
}
