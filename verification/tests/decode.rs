use fat32_driver::helpers::{to_lowercase_ascii, u8_le_to_u16, u8_le_to_u32, u8_to_u32_le};

#[test]
fn u8_le_to_u16_works() {
    let bytes = [0x34u8, 0x12u8]; /* 0x1234 -> 4660 */
    assert_eq!(u8_le_to_u16(&bytes), 0x1234);
}

#[test]
fn u8_to_u32_le_works() {
    let bytes = [0x78u8, 0x56u8, 0x34u8, 0x12u8]; /* 0x12345678 */
    assert_eq!(u8_to_u32_le(&bytes), 0x12345678);
}

#[test]
fn u8_le_to_u32_matches_its_sibling() {
    let bytes = [0xAAu8, 0xBBu8, 0xCCu8, 0x0Du8];
    assert_eq!(u8_le_to_u32(&bytes), 0x0DCCBBAA);
    assert_eq!(u8_le_to_u32(&bytes), u8_to_u32_le(&bytes));
}

#[test]
fn lowercasing_folds_only_ascii_letters() {
    let mut dst = Vec::new();
    let n = to_lowercase_ascii(b"Mixed CASE 123 [\\]", &mut dst);
    assert_eq!(n, 18);
    assert_eq!(dst, b"mixed case 123 [\\]".to_vec());
}
