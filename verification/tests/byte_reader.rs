use ttf_loader::error::FontError;
use ttf_loader::utils::{bit_set, get_i16, get_u16, get_u32};

#[test]
fn reads_big_endian_values() {
    let buffer: Vec<u8> = vec![0x12, 0x34, 0x56, 0x78, 0xff, 0xfe];
    assert_eq!(get_u16(&buffer, 0), Ok(0x1234));
    assert_eq!(get_u16(&buffer, 1), Ok(0x3456));
    assert_eq!(get_u32(&buffer, 0), Ok(0x1234_5678));
    assert_eq!(get_u32(&buffer, 2), Ok(0x5678_fffe));
    assert_eq!(get_i16(&buffer, 4), Ok(-2));
    assert_eq!(get_i16(&buffer, 0), Ok(0x1234));
}

#[test]
fn read_past_the_end_is_an_overrun() {
    let buffer: Vec<u8> = vec![1, 2, 3];
    assert_eq!(
        get_u16(&buffer, 2),
        Err(FontError::BufferOverrun { offset: 2, width: 2, buffer_len: 3 })
    );
    assert_eq!(
        get_u32(&buffer, 0),
        Err(FontError::BufferOverrun { offset: 0, width: 4, buffer_len: 3 })
    );
    assert_eq!(
        get_i16(&buffer, 7),
        Err(FontError::BufferOverrun { offset: 7, width: 2, buffer_len: 3 })
    );
    assert_eq!(get_u16(&buffer, 1), Ok(0x0203));
}

#[test]
fn tests_single_bits() {
    assert!(bit_set(0b0000_1000, 3));
    assert!(!bit_set(0b0000_1000, 2));
    assert!(bit_set(0x80, 7));
    assert!(bit_set(0x01, 0));
    assert!(!bit_set(0xfe, 0));
}
