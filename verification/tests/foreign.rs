use rclrs_msg_parser::foreign::{
    FFIFromRust, FFIToRust, FFIWString, OwnedFFIWString, ZeroInit,
};

#[test]
fn zero_init_holds_nothing() {
    let s = FFIWString::zero_init();
    assert_eq!(s.len(), 0);
    assert!(s.is_empty());
    assert_eq!(s.capacity(), 0);
    assert_eq!(s.to_rust(), Vec::<u16>::new());
    let o = OwnedFFIWString::zero_init();
    assert_eq!(o.len(), 0);
    assert!(o.is_empty());
    assert_eq!(o.capacity(), 0);
    assert_eq!(o.into_units(), Vec::<u16>::new());
    assert_eq!(String::zero_init(), "");
    assert_eq!(Vec::<u8>::zero_init(), Vec::<u8>::new());
}

#[test]
fn owned_wide_string_from_units() {
    let units: Vec<u16> = vec![0x52, 0x4f, 0x53, 0x20ac];
    let o = OwnedFFIWString::from_rust(&units);
    assert_eq!(o.len(), 4);
    assert!(!o.is_empty());
    assert_eq!(o.capacity(), 5);
    assert_eq!(o.into_units(), vec![0x52, 0x4f, 0x53, 0x20ac, 0]);
    let empty = OwnedFFIWString::from_rust(&Vec::new());
    assert_eq!(empty.len(), 0);
    assert!(empty.is_empty());
    assert_eq!(empty.capacity(), 1);
    assert_eq!(empty.into_units(), vec![0]);
}

#[test]
fn wide_string_to_units() {
    let s = FFIWString::from_units(vec![7, 8, 9, 0, 5, 5], 3).unwrap();
    assert_eq!(s.len(), 3);
    assert!(!s.is_empty());
    assert_eq!(s.capacity(), 6);
    assert_eq!(s.to_rust(), vec![7, 8, 9]);
    let e = FFIWString::from_units(vec![0], 0).unwrap();
    assert!(e.is_empty());
    assert_eq!(e.to_rust(), Vec::<u16>::new());
    let n = FFIWString::from_units(Vec::new(), 0).unwrap();
    assert!(n.is_empty());
    assert_eq!(n.capacity(), 0);
}

#[test]
fn wide_string_needs_its_closing_zero() {
    assert!(FFIWString::from_units(vec![7, 8, 9], 3).is_none());
    assert!(FFIWString::from_units(vec![7, 8, 9], 2).is_none());
    assert!(FFIWString::from_units(vec![7, 8, 0], 5).is_none());
    assert!(FFIWString::from_units(Vec::new(), 1).is_none());
    assert!(FFIWString::from_units(vec![7, 0, 9, 0], 3).is_some());
    assert!(FFIWString::from_units(vec![7, 0, 9, 0], 1).is_some());
    assert_eq!(FFIWString::from_units(vec![7, 0, 9, 0], 1).unwrap().to_rust(), vec![7]);
}

#[test]
fn wide_string_round_trip() {
    for units in [vec![], vec![1u16], vec![0xffff, 1, 2, 3], vec![65; 100]] {
        let owned = OwnedFFIWString::from_rust(&units);
        let size = owned.len();
        let back = FFIWString::from_units(owned.into_units(), size).unwrap();
        assert_eq!(back.to_rust(), units);
    }
}

#[test]
fn scalars_are_their_own_counterparts() {
    assert_eq!(i8::zero_init(), 0);
    assert_eq!(i16::zero_init(), 0);
    assert_eq!(i32::zero_init(), 0);
    assert_eq!(i64::zero_init(), 0);
    assert_eq!(u8::zero_init(), 0);
    assert_eq!(u16::zero_init(), 0);
    assert_eq!(u32::zero_init(), 0);
    assert_eq!(u64::zero_init(), 0);
    assert!(!bool::zero_init());
    assert_eq!((-5i8).to_rust(), -5);
    assert_eq!(i16::MIN.to_rust(), i16::MIN);
    assert_eq!(7i32.to_rust(), 7);
    assert_eq!(i64::MAX.to_rust(), i64::MAX);
    assert_eq!(255u8.to_rust(), 255);
    assert_eq!(9u16.to_rust(), 9);
    assert_eq!(u32::MAX.to_rust(), u32::MAX);
    assert_eq!(1u64.to_rust(), 1);
    assert!(true.to_rust());
}
