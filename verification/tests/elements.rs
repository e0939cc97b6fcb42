use graph_matrix::MxElement;

#[test]
fn zero_and_one() {
    assert_eq!(<u8 as MxElement>::zero(), 0u8);
    assert_eq!(<u16 as MxElement>::zero(), 0u16);
    assert_eq!(<u32 as MxElement>::zero(), 0u32);
    assert_eq!(<u64 as MxElement>::zero(), 0u64);
    assert_eq!(<usize as MxElement>::zero(), 0usize);
    assert_eq!(<u8 as MxElement>::one(), 1u8);
    assert_eq!(<u16 as MxElement>::one(), 1u16);
    assert_eq!(<u32 as MxElement>::one(), 1u32);
    assert_eq!(<u64 as MxElement>::one(), 1u64);
    assert_eq!(<usize as MxElement>::one(), 1usize);
}

#[test]
fn add_assign_adds() {
    let mut a = 250u8;
    MxElement::add_assign(&mut a, 5);
    assert_eq!(a, 255);
    let mut b = 7usize;
    MxElement::add_assign(&mut b, <usize as MxElement>::one());
    assert_eq!(b, 8);
}

#[test]
fn less_than_orders_by_value() {
    assert!(MxElement::less_than(&3u32, &4u32));
    assert!(!MxElement::less_than(&4u32, &4u32));
    assert!(!MxElement::less_than(&5u32, &4u32));
    assert!(MxElement::less_than(&0u64, &u64::MAX));
}

#[test]
fn to_usize_keeps_the_number() {
    assert_eq!(MxElement::to_usize(&255u8), Some(255usize));
    assert_eq!(MxElement::to_usize(&65535u16), Some(65535usize));
    assert_eq!(MxElement::to_usize(&70000u32), Some(70000usize));
    assert_eq!(MxElement::to_usize(&70000u64), Some(70000usize));
    assert_eq!(MxElement::to_usize(&usize::MAX), Some(usize::MAX));
    assert_eq!(MxElement::to_usize(&0u8), Some(0usize));
}

#[test]
fn to_usize_agrees_with_num() {
    assert_eq!(MxElement::to_usize(&u64::MAX), num::ToPrimitive::to_usize(&u64::MAX));
    assert_eq!(MxElement::to_usize(&u32::MAX), num::ToPrimitive::to_usize(&u32::MAX));
    assert_eq!(MxElement::to_usize(&77u16), num::ToPrimitive::to_usize(&77u16));
}

#[test]
fn to_u128_keeps_the_number() {
    assert_eq!(MxElement::to_u128(&255u8), 255u128);
    assert_eq!(MxElement::to_u128(&u64::MAX), 18446744073709551615u128);
    assert_eq!(MxElement::to_u128(&usize::MAX), usize::MAX as u128);
}

#[test]
fn from_u128_narrows_or_refuses() {
    assert_eq!(<u8 as MxElement>::from_u128(255), Some(255u8));
    assert_eq!(<u8 as MxElement>::from_u128(256), None);
    assert_eq!(<u16 as MxElement>::from_u128(65535), Some(65535u16));
    assert_eq!(<u16 as MxElement>::from_u128(65536), None);
    assert_eq!(<u32 as MxElement>::from_u128(4294967295), Some(4294967295u32));
    assert_eq!(<u32 as MxElement>::from_u128(4294967296), None);
    assert_eq!(<u64 as MxElement>::from_u128(18446744073709551615), Some(u64::MAX));
    assert_eq!(<u64 as MxElement>::from_u128(18446744073709551616), None);
    assert_eq!(<usize as MxElement>::from_u128(usize::MAX as u128), Some(usize::MAX));
    assert_eq!(<usize as MxElement>::from_u128(usize::MAX as u128 + 1), None);
    assert_eq!(<usize as MxElement>::from_u128(0), Some(0usize));
}

#[test]
fn from_usize_narrows_or_refuses() {
    assert_eq!(<u8 as MxElement>::from_usize(200), Some(200u8));
    assert_eq!(<u8 as MxElement>::from_usize(256), None);
    assert_eq!(<u16 as MxElement>::from_usize(65536), None);
    assert_eq!(<u32 as MxElement>::from_usize(12), Some(12u32));
    assert_eq!(<u64 as MxElement>::from_usize(usize::MAX), Some(usize::MAX as u64));
    assert_eq!(<usize as MxElement>::from_usize(usize::MAX), Some(usize::MAX));
}
