use mpmfnum::util::{bitmask, power_of_two, shl_by, shr_by};
use rug::Integer;

#[test]
fn masks_and_powers() {
    assert_eq!(bitmask(0), Integer::from(0));
    assert_eq!(bitmask(1), Integer::from(1));
    assert_eq!(bitmask(5), Integer::from(31));
    assert_eq!(bitmask(64), Integer::from(u64::MAX));
    assert_eq!(power_of_two(0), Integer::from(1));
    assert_eq!(power_of_two(10), Integer::from(1024));
    assert_eq!(power_of_two(70), Integer::from(1) << 70u32);
}

#[test]
fn shifts() {
    assert_eq!(shl_by(Integer::from(5), 0), Integer::from(5));
    assert_eq!(shl_by(Integer::from(5), 3), Integer::from(40));
    assert_eq!(shl_by(Integer::from(-5), 3), Integer::from(-40));
    assert_eq!(shl_by(Integer::from(1), 100), Integer::from(1) << 100u32);
    assert_eq!(shr_by(Integer::from(45), 0), Integer::from(45));
    assert_eq!(shr_by(Integer::from(45), 3), Integer::from(5));
    assert_eq!(shr_by(Integer::from(45), 6), Integer::from(0));
    assert_eq!(shr_by(Integer::from(1) << 100u32, 98), Integer::from(4));
}
